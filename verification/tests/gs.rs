use ground_station::binary32::Binary32;
use ground_station::gs::{
    motor_tick, track, update_self_alt, update_self_lat_long, update_target_alt,
    update_target_deg, update_target_lat_long, Axis, AxisError, Drive, GroundStation, Level, MotorEvent,
    MotorStep,
    DEADBAND_DEG, MAX_FREQ_HZ, MIN_FREQ_HZ,
};

fn of(x: f32) -> Binary32 {
    Binary32 { bits: x.to_bits() }
}

fn station() -> GroundStation {
    GroundStation::new()
}

fn axis(error: f32) -> AxisError {
    AxisError { error: of(error), demand: of(error.abs() * 100.0) }
}

#[test]
fn constants_are_the_numbers_they_name() {
    assert_eq!(DEADBAND_DEG, 0.7f32.to_bits());
    assert_eq!(MIN_FREQ_HZ, 400.0f32.to_bits());
    assert_eq!(MAX_FREQ_HZ, 1300.0f32.to_bits());
}

#[test]
fn motors_rest_within_the_deadband() {
    let (x, y) = motor_tick(axis(0.699), axis(-0.69999));
    assert_eq!(x, Drive::Stop);
    assert_eq!(y, Drive::Stop);
    let (x, y) = motor_tick(axis(0.0), axis(0.7));
    assert_eq!(x, Drive::Stop);
    assert!(matches!(y, Drive::Run { .. }));
}

#[test]
fn frequency_follows_the_error_within_its_bounds() {
    let (x, y) = motor_tick(axis(1.0), axis(-5.257));
    assert_eq!(
        x,
        Drive::Run { direction: Level::High, frequency: of(400.0), frequency_hz: 400 }
    );
    assert_eq!(
        y,
        Drive::Run { direction: Level::Low, frequency: of(5.257f32 * 100.0), frequency_hz: 525 }
    );
    let (x, _) = motor_tick(axis(180.0), axis(0.0));
    assert_eq!(
        x,
        Drive::Run { direction: Level::High, frequency: of(1300.0), frequency_hz: 1300 }
    );
}

#[test]
fn opposite_errors_drive_opposite_ways() {
    let (x, y) = motor_tick(axis(7.5), axis(-7.5));
    assert_eq!(
        x,
        Drive::Run { direction: Level::High, frequency: of(750.0), frequency_hz: 750 }
    );
    assert_eq!(
        y,
        Drive::Run { direction: Level::Low, frequency: of(750.0), frequency_hz: 750 }
    );
}

#[test]
fn an_error_that_is_no_number_drives_down_at_nothing() {
    let (x, _) = motor_tick(axis(f32::NAN), axis(0.0));
    assert!(matches!(x, Drive::Run { direction: Level::Low, frequency_hz: 0, .. }));
}

#[test]
fn a_new_station_is_all_zero() {
    let gs = station();
    assert_eq!(gs.target_pose, [of(0.0); 3]);
    assert_eq!(gs.current_pose, [of(0.0); 3]);
    assert_eq!(gs.self_alt, of(0.0));
    assert_eq!(gs.self_lat, of(0.0));
    assert_eq!(gs.self_long, of(0.0));
    assert_eq!(gs.target_dist, of(0.0));
}

#[test]
fn a_motor_is_set_up_before_it_runs() {
    let run = Drive::Run { direction: Level::Low, frequency: of(525.7), frequency_hz: 525 };
    let step = MotorStep::first(run);
    assert_eq!(step, MotorStep::SetDirection { direction: Level::Low, frequency_hz: 525 });
    let step = step.after(MotorEvent::StepDone);
    assert_eq!(step, MotorStep::SetPeriod { frequency_hz: 525 });
    let step = step.after(MotorEvent::StepDone);
    assert_eq!(step, MotorStep::ReadMaxDuty);
    assert_eq!(step.after(MotorEvent::StepDone), MotorStep::ReadMaxDuty);
    let step = step.after(MotorEvent::MaxDuty(1001));
    assert_eq!(step, MotorStep::SetDuty { duty: 500 });
    let step = step.after(MotorEvent::StepDone);
    assert_eq!(step, MotorStep::Enable);
    assert_eq!(step.after(MotorEvent::StepDone), MotorStep::Done);
}

#[test]
fn a_motor_is_stopped_at_once() {
    let step = MotorStep::first(Drive::Stop);
    assert_eq!(step, MotorStep::Disable);
    assert_eq!(step.after(MotorEvent::StepDone), MotorStep::Done);
}

#[test]
fn tracking_moves_only_the_driven_axis() {
    let mut gs = station();
    let up = Drive::Run { direction: Level::High, frequency: of(400.0), frequency_hz: 400 };
    let down = Drive::Run { direction: Level::Low, frequency: of(400.0), frequency_hz: 400 };
    track(&mut gs, Axis::X, up, of(1.0), of(-1.0));
    assert_eq!(gs.current_pose, [of(1.0), of(0.0), of(0.0)]);
    track(&mut gs, Axis::Y, down, of(1.0), of(-1.0));
    assert_eq!(gs.current_pose, [of(1.0), of(-1.0), of(0.0)]);
    track(&mut gs, Axis::X, Drive::Stop, of(9.0), of(8.0));
    assert_eq!(gs.current_pose, [of(1.0), of(-1.0), of(0.0)]);
    assert_eq!(gs.target_pose, [of(0.0); 3]);
}

#[test]
fn updates_touch_only_what_they_name() {
    let mut gs = station();
    update_self_alt(&mut gs, of(12.0));
    update_self_lat_long(&mut gs, of(55.8), of(-4.2));
    assert_eq!(gs.self_alt, of(12.0));
    assert_eq!(gs.self_lat, of(55.8));
    assert_eq!(gs.self_long, of(-4.2));
    update_target_lat_long(&mut gs, of(1500.0), of(90.0));
    assert_eq!(gs.target_dist, of(1500.0));
    assert_eq!(gs.target_pose, [of(90.0), of(0.0), of(0.0)]);
    update_target_alt(&mut gs, of(45.0));
    assert_eq!(gs.target_pose, [of(90.0), of(45.0), of(0.0)]);
    assert_eq!(gs.current_pose, [of(0.0); 3]);
}

#[test]
fn angles_are_set_independently() {
    let mut gs = station();
    update_target_deg(&mut gs, None, None);
    assert_eq!(gs.target_pose, [of(0.0), of(0.0), of(0.0)]);
    update_target_deg(&mut gs, Some(of(10.0)), None);
    assert_eq!(gs.target_pose, [of(10.0), of(0.0), of(0.0)]);
    update_target_deg(&mut gs, None, Some(of(20.0)));
    assert_eq!(gs.target_pose, [of(10.0), of(20.0), of(0.0)]);
    update_target_deg(&mut gs, Some(of(1.0)), Some(of(2.0)));
    assert_eq!(gs.target_pose, [of(1.0), of(2.0), of(0.0)]);
}
