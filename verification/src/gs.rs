//! The ground station: where its antenna points, where it should point, and how its motors are
//! driven from the one to the other.
//!
//! Angles, distances and coordinates are single-precision numbers in degrees and meters.
use crate::binary32::Binary32;
use vstd::prelude::*;

verus! {

/// The bits of 0.7, the angle in degrees within which a motor is left alone.
pub const DEADBAND_DEG: u32 = 0x3F33_3333;

/// The bits of 400, the lowest step frequency in hertz.
pub const MIN_FREQ_HZ: u32 = 0x43C8_0000;

/// The bits of 1300, the highest step frequency in hertz.
pub const MAX_FREQ_HZ: u32 = 0x44A2_8000;

/// What the ground station knows of itself and its target.
pub struct GroundStation {
    /// The angles to point at: around, then up and down; the third is not used.
    pub target_pose: [Binary32; 3],
    /// The angles pointed at.
    pub current_pose: [Binary32; 3],
    /// The station's altitude.
    pub self_alt: Binary32,
    /// The station's latitude.
    pub self_lat: Binary32,
    /// The station's longitude.
    pub self_long: Binary32,
    /// The distance to the target over ground.
    pub target_dist: Binary32,
}

impl GroundStation {
    /// A station that knows nothing: every number is zero.
    pub fn new() -> (station: Self)
        ensures
            station.target_pose@ == Seq::new(3, |i: int| Binary32 { bits: 0 }),
            station.current_pose@ == Seq::new(3, |i: int| Binary32 { bits: 0 }),
            station.self_alt == (Binary32 { bits: 0 }),
            station.self_lat == (Binary32 { bits: 0 }),
            station.self_long == (Binary32 { bits: 0 }),
            station.target_dist == (Binary32 { bits: 0 }),
    {
        let zero = Binary32 { bits: 0 };
        GroundStation {
            target_pose: [zero, zero, zero],
            current_pose: [zero, zero, zero],
            self_alt: zero,
            self_lat: zero,
            self_long: zero,
            target_dist: zero,
        }
    }
}

/// A motor's axis.
#[derive(Clone, Copy, Debug, PartialEq, Eq, Structural)]
pub enum Axis {
    /// Around.
    X,
    /// Up and down.
    Y,
}

impl Axis {
    /// The place of the axis in a pose.
    pub open spec fn index(self) -> int {
        match self {
            Axis::X => 0,
            Axis::Y => 1,
        }
    }
}

/// The level of a direction pin.
#[derive(Clone, Copy, Debug, PartialEq, Eq, Structural)]
pub enum Level {
    /// Low, for falling angles.
    Low,
    /// High, for rising angles.
    High,
}

/// What a motor does until the next tick.
#[derive(Clone, Copy, Debug, PartialEq, Eq, Structural)]
pub enum Drive {
    /// It gets no steps.
    Stop,
    /// It gets steps.
    Run {
        /// The level of its direction pin.
        direction: Level,
        /// The step frequency in hertz.
        frequency: Binary32,
        /// The step frequency in whole hertz, as the step generator takes it.
        frequency_hz: u32,
    },
}

/// How far an axis is from its target.
#[derive(Clone, Copy, Debug, PartialEq, Eq, Structural)]
pub struct AxisError {
    /// The target angle less the current one.
    pub error: Binary32,
    /// The step frequency that the error calls for: a hundred hertz for each degree of it.
    pub demand: Binary32,
}

/// The number without its sign.
pub open spec fn absolute(x: Binary32) -> Binary32 {
    Binary32 { bits: (x.bits % 0x8000_0000) as u32 }
}

/// What the motor of an axis does: nothing within the deadband, otherwise steps towards the target.
pub open spec fn drive_for(axis: AxisError) -> Drive {
    if absolute(axis.error).lt(Binary32 { bits: DEADBAND_DEG }) {
        Drive::Stop
    } else {
        let frequency = axis.demand.clamped(
            Binary32 { bits: MIN_FREQ_HZ },
            Binary32 { bits: MAX_FREQ_HZ },
        );
        Drive::Run {
            direction: if (Binary32 { bits: 0 }).lt(axis.error) {
                Level::High
            } else {
                Level::Low
            },
            frequency,
            frequency_hz: frequency.truncated() as u32,
        }
    }
}

/// A pose with those of its two angles replaced that are given.
pub open spec fn aimed(
    pose: Seq<Binary32>,
    around: Option<Binary32>,
    updown: Option<Binary32>,
) -> Seq<Binary32> {
    let turned = match around {
        Some(around) => pose.update(0, around),
        None => pose,
    };
    match updown {
        Some(updown) => turned.update(1, updown),
        None => turned,
    }
}

/// The angle of an axis after a tick: `ahead` if it was driven towards larger angles, `behind` if
/// towards smaller ones, `here` if it was not driven.
pub open spec fn moved(drive: Drive, here: Binary32, ahead: Binary32, behind: Binary32) -> Binary32 {
    match drive {
        Drive::Stop => here,
        Drive::Run { direction: Level::High, .. } => ahead,
        Drive::Run { direction: Level::Low, .. } => behind,
    }
}

/// Sets the station's altitude.
pub fn update_self_alt(station: &mut GroundStation, alt: Binary32)
    ensures
        *final(station) == (GroundStation { self_alt: alt, ..*old(station) }),
{
    station.self_alt = alt;
}

/// Aims at a target that stands at an elevation, seen from the station's altitude and the distance
/// to the target.
pub fn update_target_alt(station: &mut GroundStation, elevation: Binary32)
    ensures
        final(station).target_pose@ == old(station).target_pose@.update(1, elevation),
        *final(station) == (GroundStation {
            target_pose: final(station).target_pose,
            ..*old(station)
        }),
{
    station.target_pose[1] = elevation;
}

/// Sets the station's coordinates.
pub fn update_self_lat_long(station: &mut GroundStation, lat: Binary32, long: Binary32)
    ensures
        *final(station) == (GroundStation { self_lat: lat, self_long: long, ..*old(station) }),
{
    station.self_lat = lat;
    station.self_long = long;
}

/// Aims at those of the two angles that are given.
pub fn update_target_deg(
    station: &mut GroundStation,
    around: Option<Binary32>,
    updown: Option<Binary32>,
)
    ensures
        final(station).target_pose@ == aimed(old(station).target_pose@, around, updown),
        *final(station) == (GroundStation {
            target_pose: final(station).target_pose,
            ..*old(station)
        }),
{
    if let Some(around) = around {
        station.target_pose[0] = around;
    }
    if let Some(updown) = updown {
        station.target_pose[1] = updown;
    }
}

/// Aims at a target at a distance and an azimuth, both seen from the station's coordinates.
pub fn update_target_lat_long(station: &mut GroundStation, dist: Binary32, azimuth: Binary32)
    ensures
        final(station).target_pose@ == old(station).target_pose@.update(0, azimuth),
        *final(station) == (GroundStation {
            target_pose: final(station).target_pose,
            target_dist: dist,
            ..*old(station)
        }),
{
    station.target_dist = dist;
    station.target_pose[0] = azimuth;
}

/// What the motor of an axis does.
fn drive_axis(axis: AxisError) -> (drive: Drive)
    ensures
        drive == drive_for(axis),
{
    if axis.error.abs().less(Binary32 { bits: DEADBAND_DEG }) {
        Drive::Stop
    } else {
        let direction = if (Binary32 { bits: 0 }).less(axis.error) {
            Level::High
        } else {
            Level::Low
        };
        let frequency = axis.demand.clamp(
            Binary32 { bits: MIN_FREQ_HZ },
            Binary32 { bits: MAX_FREQ_HZ },
        );
        Drive::Run { direction, frequency, frequency_hz: frequency.to_u32() }
    }
}

/// What the two motors do until the next tick.
pub fn motor_tick(x: AxisError, y: AxisError) -> (drives: (Drive, Drive))
    ensures
        drives.0 == drive_for(x),
        drives.1 == drive_for(y),
{
    (drive_axis(x), drive_axis(y))
}

/// What is to be done next to a motor in a tick.
#[derive(Clone, Copy, Debug, PartialEq, Eq, Structural)]
pub enum MotorStep {
    /// Take its steps away.
    Disable,
    /// Set its direction pin; the frequency comes after that.
    SetDirection {
        /// The level of the pin.
        direction: Level,
        /// The step frequency to set then.
        frequency_hz: u32,
    },
    /// Set its step frequency.
    SetPeriod {
        /// The step frequency.
        frequency_hz: u32,
    },
    /// Read the full duty of its step signal, which depends on the frequency.
    ReadMaxDuty,
    /// Set the duty of its step signal.
    SetDuty {
        /// The duty.
        duty: u16,
    },
    /// Give it its steps.
    Enable,
    /// Nothing.
    Done,
}

/// How a step of a motor came out.
#[derive(Clone, Copy, Debug, PartialEq, Eq, Structural)]
pub enum MotorEvent {
    /// It is done.
    StepDone,
    /// The full duty that was read.
    MaxDuty(u16),
}

/// The first step for what a motor does.
pub open spec fn first_step(drive: Drive) -> MotorStep {
    match drive {
        Drive::Stop => MotorStep::Disable,
        Drive::Run { direction, frequency_hz, .. } => MotorStep::SetDirection {
            direction,
            frequency_hz,
        },
    }
}

/// The step after a step.
///
/// An event that is no outcome of the step changes nothing.
pub open spec fn step_after(step: MotorStep, event: MotorEvent) -> MotorStep {
    match (step, event) {
        (MotorStep::Disable, MotorEvent::StepDone) => MotorStep::Done,
        (MotorStep::SetDirection { frequency_hz, .. }, MotorEvent::StepDone) => {
            MotorStep::SetPeriod { frequency_hz }
        },
        (MotorStep::SetPeriod { .. }, MotorEvent::StepDone) => MotorStep::ReadMaxDuty,
        (MotorStep::ReadMaxDuty, MotorEvent::MaxDuty(max_duty)) => MotorStep::SetDuty {
            duty: max_duty / 2,
        },
        (MotorStep::SetDuty { .. }, MotorEvent::StepDone) => MotorStep::Enable,
        (MotorStep::Enable, MotorEvent::StepDone) => MotorStep::Done,
        (step, _) => step,
    }
}

impl MotorStep {
    /// The first step for what a motor does.
    pub fn first(drive: Drive) -> (step: MotorStep)
        ensures
            step == first_step(drive),
    {
        match drive {
            Drive::Stop => MotorStep::Disable,
            Drive::Run { direction, frequency_hz, .. } => MotorStep::SetDirection {
                direction,
                frequency_hz,
            },
        }
    }

    /// The step after this one.
    pub fn after(self, event: MotorEvent) -> (step: MotorStep)
        ensures
            step == step_after(self, event),
    {
        match (self, event) {
            (MotorStep::Disable, MotorEvent::StepDone) => MotorStep::Done,
            (MotorStep::SetDirection { frequency_hz, .. }, MotorEvent::StepDone) => {
                MotorStep::SetPeriod { frequency_hz }
            },
            (MotorStep::SetPeriod { .. }, MotorEvent::StepDone) => MotorStep::ReadMaxDuty,
            (MotorStep::ReadMaxDuty, MotorEvent::MaxDuty(max_duty)) => MotorStep::SetDuty {
                duty: max_duty / 2,
            },
            (MotorStep::SetDuty { .. }, MotorEvent::StepDone) => MotorStep::Enable,
            (MotorStep::Enable, MotorEvent::StepDone) => MotorStep::Done,
            (step, _) => step,
        }
    }
}

/// A motor that is to stop is disabled and no more. One that is to run gets its direction, its
/// frequency and half the full duty of that frequency, in this order, before it gets its steps.
pub proof fn law_motor_is_set_up_before_it_runs(
    direction: Level,
    frequency: Binary32,
    frequency_hz: u32,
    max_duty: u16,
)
    ensures
        first_step(Drive::Stop) == MotorStep::Disable,
        step_after(MotorStep::Disable, MotorEvent::StepDone) == MotorStep::Done,
        ({
            let one = first_step(Drive::Run { direction, frequency, frequency_hz });
            let two = step_after(one, MotorEvent::StepDone);
            let three = step_after(two, MotorEvent::StepDone);
            let four = step_after(three, MotorEvent::MaxDuty(max_duty));
            let five = step_after(four, MotorEvent::StepDone);
            &&& one == MotorStep::SetDirection { direction, frequency_hz }
            &&& two == MotorStep::SetPeriod { frequency_hz }
            &&& three == MotorStep::ReadMaxDuty
            &&& four == MotorStep::SetDuty { duty: max_duty / 2 }
            &&& five == MotorStep::Enable
            &&& step_after(five, MotorEvent::StepDone) == MotorStep::Done
        }),
{
}

/// Keeps track of the angle of an axis that was driven: `ahead` and `behind` are the angles reached
/// by a tick's steps up and down.
pub fn track(
    station: &mut GroundStation,
    axis: Axis,
    drive: Drive,
    ahead: Binary32,
    behind: Binary32,
)
    ensures
        final(station).current_pose@ == old(station).current_pose@.update(
            axis.index(),
            moved(drive, old(station).current_pose@[axis.index()], ahead, behind),
        ),
        *final(station) == (GroundStation {
            current_pose: final(station).current_pose,
            ..*old(station)
        }),
{
    let index: usize = match axis {
        Axis::X => 0,
        Axis::Y => 1,
    };
    match drive {
        Drive::Stop => {
            assert(station.current_pose@ =~= old(station).current_pose@.update(
                axis.index(),
                old(station).current_pose@[axis.index()],
            ));
        },
        Drive::Run { direction: Level::High, .. } => {
            station.current_pose[index] = ahead;
        },
        Drive::Run { direction: Level::Low, .. } => {
            station.current_pose[index] = behind;
        },
    }
}

/// A motor is stopped exactly where the error is a number whose distance from zero is less than
/// 0.7 in single precision, which is 0xB33333 times 2 to the -24.
pub proof fn law_deadband(axis: AxisError)
    ensures
        drive_for(axis) is Stop <==> {
            &&& !axis.error.nan()
            &&& -0xB3_3333 * vstd::arithmetic::power2::pow2(125) < axis.error.value() < 0xB3_3333
                * vstd::arithmetic::power2::pow2(125)
        },
{
    assert(0x3F33_3333int / 0x80_0000 == 126);
    assert((Binary32 { bits: DEADBAND_DEG }).value() == 0xB3_3333
        * vstd::arithmetic::power2::pow2(125));
}

/// A motor that runs on a demand that is a number gets from 400 to 1300 whole steps a second.
pub proof fn law_frequency_is_bounded(axis: AxisError)
    requires
        !axis.demand.nan(),
    ensures
        drive_for(axis) matches Drive::Run { frequency_hz, .. } ==> 400 <= frequency_hz <= 1300,
{
    let low = Binary32 { bits: MIN_FREQ_HZ };
    let high = Binary32 { bits: MAX_FREQ_HZ };
    let frequency = axis.demand.clamped(low, high);
    let one = vstd::arithmetic::power2::pow2(149) as int;
    vstd::arithmetic::power2::lemma_pow2_pos(149);
    crate::binary32::lemma_whole_part(MIN_FREQ_HZ as nat);
    crate::binary32::lemma_whole_part(MAX_FREQ_HZ as nat);
    vstd::arithmetic::power2::lemma2_to64();
    assert(MIN_FREQ_HZ as nat / 0x80_0000 == 135 && MIN_FREQ_HZ as nat % 0x80_0000 == 0x48_0000);
    assert(MAX_FREQ_HZ as nat / 0x80_0000 == 137 && MAX_FREQ_HZ as nat % 0x80_0000 == 0x22_8000);
    assert(low.value() / one == 400);
    assert(high.value() / one == 0xA2_8000nat / 8192);
    assert(high.value() / one == 1300);
    crate::binary32::lemma_magnitude_increases(MIN_FREQ_HZ as nat, MAX_FREQ_HZ as nat);
    vstd::arithmetic::div_mod::lemma_div_is_ordered(low.value(), frequency.value(), one);
    vstd::arithmetic::div_mod::lemma_div_is_ordered(frequency.value(), high.value(), one);
}

/// The same error the other way round drives a motor equally fast the other way, or leaves it alone
/// as well.
pub proof fn law_opposite_errors_drive_opposite_ways(axis: AxisError, opposite: AxisError)
    requires
        !axis.error.nan(),
        !opposite.error.nan(),
        opposite.error.value() == -axis.error.value(),
        opposite.demand == axis.demand,
    ensures
        match (drive_for(axis), drive_for(opposite)) {
            (Drive::Stop, Drive::Stop) => true,
            (
                Drive::Run { direction: d1, frequency: f1, frequency_hz: h1 },
                Drive::Run { direction: d2, frequency: f2, frequency_hz: h2 },
            ) => d1 != d2 && f1 == f2 && h1 == h2,
            _ => false,
        },
{
    law_deadband(axis);
    law_deadband(opposite);
    vstd::arithmetic::power2::lemma_pow2_pos(125);
    assert((Binary32 { bits: 0 }).value() == 0);
}

/// A motor runs towards the target: up for a positive error, down for a negative one.
pub proof fn law_runs_towards_target(axis: AxisError)
    requires
        !axis.error.nan(),
    ensures
        drive_for(axis) matches Drive::Run { direction, .. } ==> {
            &&& axis.error.value() != 0
            &&& direction == Level::High <==> axis.error.value() > 0
        },
{
    law_deadband(axis);
    vstd::arithmetic::power2::lemma_pow2_pos(125);
    assert((Binary32 { bits: 0 }).value() == 0);
}

/// The two angles are set independently: setting one after the other, in either order, sets both.
pub proof fn law_angles_are_independent(
    pose: Seq<Binary32>,
    around: Option<Binary32>,
    updown: Option<Binary32>,
)
    requires
        pose.len() == 3,
    ensures
        aimed(aimed(pose, around, None), None, updown) == aimed(pose, around, updown),
        aimed(aimed(pose, None, updown), around, None) == aimed(pose, around, updown),
        aimed(pose, None, None) == pose,
        aimed(pose, around, updown)[2] == pose[2],
{
    assert(aimed(aimed(pose, None, updown), around, None) =~= aimed(pose, around, updown));
}

proof fn lemma_frequency_bounds()
    ensures
        (Binary32 { bits: MIN_FREQ_HZ }).value() == 400 * vstd::arithmetic::power2::pow2(149),
        (Binary32 { bits: MAX_FREQ_HZ }).value() == 1300 * vstd::arithmetic::power2::pow2(149),
        vstd::arithmetic::power2::pow2(149) > 0,
{
    let p134 = vstd::arithmetic::power2::pow2(134);
    let p136 = vstd::arithmetic::power2::pow2(136);
    let one = vstd::arithmetic::power2::pow2(149);
    vstd::arithmetic::power2::lemma2_to64();
    vstd::arithmetic::power2::lemma_pow2_pos(149);
    vstd::arithmetic::power2::lemma_pow2_adds(15, 134);
    vstd::arithmetic::power2::lemma_pow2_adds(13, 136);
    assert(MIN_FREQ_HZ as nat / 0x80_0000 == 135 && MIN_FREQ_HZ as nat % 0x80_0000 == 0x48_0000);
    assert(MAX_FREQ_HZ as nat / 0x80_0000 == 137 && MAX_FREQ_HZ as nat % 0x80_0000 == 0x22_8000);
    assert(0xC8_0000 * p134 == 400 * one) by (nonlinear_arith)
        requires
            one == 0x8000 * p134,
    ;
    assert(0xA2_8000 * p136 == 1300 * one) by (nonlinear_arith)
        requires
            one == 0x2000 * p136,
    ;
}

/// At a tick each axis gets what its own error calls for. It is stopped exactly where the error is
/// a number whose distance from zero is less than 0.7 in single precision, which is 0xB33333 times
/// 2 to the -24. Otherwise it runs, up exactly where the error is a number above zero.
pub proof fn law_tick_stops_or_runs_towards_target(
    axis: AxisError,
    other: AxisError,
    drives: (Drive, Drive),
    drive: Drive,
)
    requires
        ({
            ||| call_ensures(motor_tick, (axis, other), drives) && drive == drives.0
            ||| call_ensures(motor_tick, (other, axis), drives) && drive == drives.1
        }),
    ensures
        drive is Stop <==> {
            &&& !axis.error.nan()
            &&& -0xB3_3333 * vstd::arithmetic::power2::pow2(125) < axis.error.value()
            &&& axis.error.value() < 0xB3_3333 * vstd::arithmetic::power2::pow2(125)
        },
        drive matches Drive::Run { direction, .. } ==> (direction == Level::High <==> {
            &&& !axis.error.nan()
            &&& axis.error.value() > 0
        }),
        drive matches Drive::Run { direction, .. } ==> (direction == Level::Low <==> {
            ||| axis.error.nan()
            ||| axis.error.value() < 0
        }),
{
    law_deadband(axis);
    vstd::arithmetic::power2::lemma_pow2_pos(125);
    assert((Binary32 { bits: 0 }).value() == 0);
}

/// An axis that runs at a tick gets the step frequency that its error calls for, held to the range
/// from 400 to 1300 hertz, and of that the whole hertz. A demand that is no number is handed on,
/// with no whole hertz.
pub proof fn law_tick_frequency_follows_the_demand(
    axis: AxisError,
    other: AxisError,
    drives: (Drive, Drive),
    drive: Drive,
)
    requires
        ({
            ||| call_ensures(motor_tick, (axis, other), drives) && drive == drives.0
            ||| call_ensures(motor_tick, (other, axis), drives) && drive == drives.1
        }),
    ensures
        ({
            let hertz = vstd::arithmetic::power2::pow2(149) as int;
            let demand = axis.demand.value();
            drive matches Drive::Run { frequency, frequency_hz, .. } ==> if axis.demand.nan() {
                frequency == axis.demand && frequency_hz == 0
            } else {
                &&& !frequency.nan()
                &&& demand < 400 * hertz ==> frequency.value() == 400 * hertz && frequency_hz == 400
                &&& 400 * hertz <= demand <= 1300 * hertz ==> frequency == axis.demand
                &&& demand > 1300 * hertz ==> frequency.value() == 1300 * hertz && frequency_hz
                    == 1300
                &&& frequency_hz * hertz <= frequency.value() < (frequency_hz + 1) * hertz
            }
        }),
{
    let hertz = vstd::arithmetic::power2::pow2(149) as int;
    let demand = axis.demand.value();
    lemma_frequency_bounds();
    if let Drive::Run { frequency, frequency_hz, .. } = drive {
        if !axis.demand.nan() {
            assert(400 * hertz <= frequency.value() <= 1300 * hertz);
            crate::binary32::lemma_quotient(frequency.value(), hertz);
            let whole = frequency.value() / hertz;
            assert(400 <= whole <= 1300) by (nonlinear_arith)
                requires
                    whole * hertz <= frequency.value() < (whole + 1) * hertz,
                    400 * hertz <= frequency.value() <= 1300 * hertz,
                    hertz > 0,
            ;
            assert(frequency_hz == whole);
            if frequency.value() == 400 * hertz {
                vstd::arithmetic::div_mod::lemma_div_by_multiple(400, hertz);
            }
            if frequency.value() == 1300 * hertz {
                vstd::arithmetic::div_mod::lemma_div_by_multiple(1300, hertz);
            }
        }
    }
}

/// A larger demand never gives a lower frequency.
pub proof fn law_larger_demand_is_not_driven_slower(
    lesser: AxisError,
    greater: AxisError,
    drives: (Drive, Drive),
)
    requires
        call_ensures(motor_tick, (lesser, greater), drives),
        !lesser.demand.nan(),
        !greater.demand.nan(),
        lesser.demand.value() <= greater.demand.value(),
    ensures
        match drives {
            (
                Drive::Run { frequency: f1, frequency_hz: h1, .. },
                Drive::Run { frequency: f2, frequency_hz: h2, .. },
            ) => f1.value() <= f2.value() && h1 <= h2,
            _ => true,
        },
{
    let hertz = vstd::arithmetic::power2::pow2(149) as int;
    lemma_frequency_bounds();
    law_tick_frequency_follows_the_demand(lesser, greater, drives, drives.0);
    law_tick_frequency_follows_the_demand(greater, lesser, drives, drives.1);
    if let (
        Drive::Run { frequency: f1, frequency_hz: h1, .. },
        Drive::Run { frequency: f2, frequency_hz: h2, .. },
    ) = drives {
        assert(h1 <= h2) by (nonlinear_arith)
            requires
                h1 * hertz <= f1.value() <= f2.value() < (h2 + 1) * hertz,
                hertz > 0,
        ;
    }
}

/// A motor that is to run is given, one after the other, its direction, its whole hertz, half of
/// the full duty that is then read, and its steps. One that is to stop is disabled and no more.
pub proof fn law_motor_steps(
    direction: Level,
    frequency: Binary32,
    frequency_hz: u32,
    max_duty: u16,
    run: (MotorStep, MotorStep, MotorStep, MotorStep, MotorStep, MotorStep),
    stop: (MotorStep, MotorStep),
)
    requires
        call_ensures(
            MotorStep::first,
            (Drive::Run { direction, frequency, frequency_hz },),
            run.0,
        ),
        call_ensures(MotorStep::after, (run.0, MotorEvent::StepDone), run.1),
        call_ensures(MotorStep::after, (run.1, MotorEvent::StepDone), run.2),
        call_ensures(MotorStep::after, (run.2, MotorEvent::MaxDuty(max_duty)), run.3),
        call_ensures(MotorStep::after, (run.3, MotorEvent::StepDone), run.4),
        call_ensures(MotorStep::after, (run.4, MotorEvent::StepDone), run.5),
        call_ensures(MotorStep::first, (Drive::Stop,), stop.0),
        call_ensures(MotorStep::after, (stop.0, MotorEvent::StepDone), stop.1),
    ensures
        run.0 matches MotorStep::SetDirection { direction: set, .. } && set == direction,
        run.1 matches MotorStep::SetPeriod { frequency_hz: set } && set == frequency_hz,
        run.2 is ReadMaxDuty,
        run.3 matches MotorStep::SetDuty { duty } && max_duty - 1 <= 2 * duty <= max_duty,
        run.4 is Enable,
        run.5 is Done,
        stop.0 is Disable,
        stop.1 is Done,
{
}

/// A step waits for its own outcome: reading the duty for the duty, every other step for being
/// done. Until then it stays, and so does a motor that is done.
pub proof fn law_step_waits_for_its_outcome(step: MotorStep, event: MotorEvent, after: MotorStep)
    requires
        call_ensures(MotorStep::after, (step, event), after),
        step is Done || (event is MaxDuty <==> !(step is ReadMaxDuty)),
    ensures
        after == step,
{
}

/// A station starts with nothing but zeros.
pub proof fn law_new_station_is_zero(station: GroundStation)
    requires
        call_ensures(GroundStation::new, (), station),
    ensures
        forall|i: int| 0 <= i < 3 ==> (#[trigger] station.target_pose@[i]).bits == 0,
        forall|i: int| 0 <= i < 3 ==> (#[trigger] station.current_pose@[i]).bits == 0,
        station.self_alt.bits == 0,
        station.self_lat.bits == 0,
        station.self_long.bits == 0,
        station.target_dist.bits == 0,
{
}

/// Telling the station its altitude changes that and nothing else.
pub proof fn law_self_alt_is_set(station: &mut GroundStation, alt: Binary32)
    requires
        call_ensures(update_self_alt, (station, alt), ()),
    ensures
        final(station).self_alt == alt,
        final(station).target_pose == old(station).target_pose,
        final(station).current_pose == old(station).current_pose,
        final(station).self_lat == old(station).self_lat,
        final(station).self_long == old(station).self_long,
        final(station).target_dist == old(station).target_dist,
{
}

/// Telling the station its coordinates changes these and nothing else.
pub proof fn law_self_lat_long_is_set(station: &mut GroundStation, lat: Binary32, long: Binary32)
    requires
        call_ensures(update_self_lat_long, (station, lat, long), ()),
    ensures
        final(station).self_lat == lat,
        final(station).self_long == long,
        final(station).target_pose == old(station).target_pose,
        final(station).current_pose == old(station).current_pose,
        final(station).self_alt == old(station).self_alt,
        final(station).target_dist == old(station).target_dist,
{
}

/// Aiming at an elevation changes the second target angle to it and nothing else.
pub proof fn law_elevation_is_aimed_at(station: &mut GroundStation, elevation: Binary32)
    requires
        call_ensures(update_target_alt, (station, elevation), ()),
    ensures
        final(station).target_pose@[1] == elevation,
        final(station).target_pose@[0] == old(station).target_pose@[0],
        final(station).target_pose@[2] == old(station).target_pose@[2],
        final(station).current_pose == old(station).current_pose,
        final(station).self_alt == old(station).self_alt,
        final(station).self_lat == old(station).self_lat,
        final(station).self_long == old(station).self_long,
        final(station).target_dist == old(station).target_dist,
{
}

/// Aiming at a distance and an azimuth changes the distance and the first target angle to them and
/// nothing else.
pub proof fn law_azimuth_is_aimed_at(station: &mut GroundStation, dist: Binary32, azimuth: Binary32)
    requires
        call_ensures(update_target_lat_long, (station, dist, azimuth), ()),
    ensures
        final(station).target_dist == dist,
        final(station).target_pose@[0] == azimuth,
        final(station).target_pose@[1] == old(station).target_pose@[1],
        final(station).target_pose@[2] == old(station).target_pose@[2],
        final(station).current_pose == old(station).current_pose,
        final(station).self_alt == old(station).self_alt,
        final(station).self_lat == old(station).self_lat,
        final(station).self_long == old(station).self_long,
{
}

/// Aiming at angles sets each angle that is given, whatever it is, and leaves the others and all
/// else as they were.
pub proof fn law_given_angles_are_aimed_at(
    station: &mut GroundStation,
    around: Option<Binary32>,
    updown: Option<Binary32>,
)
    requires
        call_ensures(update_target_deg, (station, around, updown), ()),
    ensures
        around matches Some(angle) ==> final(station).target_pose@[0] == angle,
        around is None ==> final(station).target_pose@[0] == old(station).target_pose@[0],
        updown matches Some(angle) ==> final(station).target_pose@[1] == angle,
        updown is None ==> final(station).target_pose@[1] == old(station).target_pose@[1],
        final(station).target_pose@[2] == old(station).target_pose@[2],
        final(station).current_pose == old(station).current_pose,
        final(station).self_alt == old(station).self_alt,
        final(station).self_lat == old(station).self_lat,
        final(station).self_long == old(station).self_long,
        final(station).target_dist == old(station).target_dist,
{
}

/// Tracking moves the angle of the axis that ran to where its steps took it, ahead for a high
/// direction pin and behind for a low one, and changes nothing else; a stopped axis stays.
pub proof fn law_tracking_follows_the_drive(
    station: &mut GroundStation,
    axis: Axis,
    drive: Drive,
    ahead: Binary32,
    behind: Binary32,
)
    requires
        call_ensures(track, (station, axis, drive, ahead, behind), ()),
    ensures
        ({
            let here: int = if axis is X {
                0
            } else {
                1
            };
            &&& drive is Stop ==> final(station).current_pose@[here] == old(
                station,
            ).current_pose@[here]
            &&& drive matches Drive::Run { direction, .. } ==> {
                &&& direction == Level::High ==> final(station).current_pose@[here] == ahead
                &&& direction == Level::Low ==> final(station).current_pose@[here] == behind
            }
            &&& final(station).current_pose@[1 - here] == old(station).current_pose@[1 - here]
            &&& final(station).current_pose@[2] == old(station).current_pose@[2]
        }),
        final(station).target_pose == old(station).target_pose,
        final(station).self_alt == old(station).self_alt,
        final(station).self_lat == old(station).self_lat,
        final(station).self_long == old(station).self_long,
        final(station).target_dist == old(station).target_dist,
{
}

}
