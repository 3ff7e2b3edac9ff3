use ground_station::beacon::{erased_color, Beacon};

#[test]
fn blinks_every_hundred_frames() {
    let mut beacon = Beacon::new();
    let mut frames = vec![];
    for _ in 0..301 {
        frames.push(beacon.frame());
        beacon = beacon.step();
    }
    assert_eq!(beacon.frames(), 301);
    assert_eq!(frames[0], [255, 255, 0]);
    assert_eq!(frames[99], [255, 255, 0]);
    assert_eq!(frames[100], [0, 0, 0]);
    assert_eq!(frames[199], [0, 0, 0]);
    assert_eq!(frames[200], [255, 255, 0]);
    assert_eq!(frames[300], [0, 0, 0]);
}

#[test]
fn erased_is_green() {
    assert_eq!(erased_color(), [0, 128, 0]);
}
