//! The light that blinks while the flash chip is erased.
use vstd::prelude::*;

verus! {

/// The number of the light that blinks.
pub const BEACON_PIXEL: usize = 0;

/// How many frames the light keeps its color.
pub const FRAMES_PER_COLOR: i32 = 100;

/// A light that is yellow and dark in turns.
pub struct Beacon {
    color: u8,
    shown: i32,
}

/// How bright red and green are in the frame of that number, counted from zero.
pub open spec fn brightness_at(frame: nat) -> u8 {
    if (frame / FRAMES_PER_COLOR as nat) % 2 == 0 {
        255
    } else {
        0
    }
}

impl Beacon {
    #[verifier::type_invariant]
    spec fn wf(self) -> bool {
        &&& 0 <= self.shown
        &&& self.color == brightness_at(self.shown as nat)
    }

    /// How many frames have been shown.
    pub closed spec fn shown(&self) -> nat {
        self.shown as nat
    }

    /// A light that has shown nothing yet.
    pub fn new() -> (beacon: Self)
        ensures
            beacon.shown() == 0,
    {
        Beacon { color: 255, shown: 0 }
    }

    /// How many frames have been shown.
    pub fn frames(&self) -> (frames: i32)
        ensures
            frames == self.shown(),
    {
        proof {
            use_type_invariant(self);
        }
        self.shown
    }

    /// The red, green and blue of the frame to show.
    pub fn frame(&self) -> (color: [u8; 3])
        ensures
            color@ == seq![brightness_at(self.shown()), brightness_at(self.shown()), 0],
    {
        proof {
            use_type_invariant(self);
        }
        [self.color, self.color, 0]
    }

    /// The light once its frame has been shown.
    ///
    /// The count of frames ends at the greatest `i32`.
    pub fn step(self) -> (beacon: Self)
        requires
            self.shown() < i32::MAX,
        ensures
            beacon.shown() == self.shown() + 1,
    {
        proof {
            use_type_invariant(&self);
        }
        let shown: i32 = self.shown + 1;
        let mut color: u8 = self.color;
        if shown % FRAMES_PER_COLOR == 0 {
            assert(color ^ 255 == 255 - color) by (bit_vector);
            color ^= 255;
        }
        proof {
            law_beacon_blinks((shown - 1) as nat);
        }
        Beacon { color, shown }
    }
}

/// The red, green and blue shown once the erase has ended.
pub fn erased_color() -> (color: [u8; 3])
    ensures
        color@ == seq![0u8, 128, 0],
{
    [0, 128, 0]
}

/// The light keeps its color for a hundred frames, then changes it.
pub proof fn law_beacon_blinks(frame: nat)
    ensures
        brightness_at(0) == 255,
        brightness_at(frame + FRAMES_PER_COLOR as nat) != brightness_at(frame),
        frame % (FRAMES_PER_COLOR as nat) != FRAMES_PER_COLOR - 1 ==> brightness_at(frame + 1)
            == brightness_at(frame),
        frame % (FRAMES_PER_COLOR as nat) == FRAMES_PER_COLOR - 1 ==> brightness_at(frame + 1)
            != brightness_at(frame),
{
}

/// Counted from a new light and one frame at a time, the frames are yellow for the first hundred of
/// every two hundred and dark for the second, without any blue.
pub proof fn law_frames_in_order(beacons: Seq<Beacon>, color: [u8; 3], frames: i32)
    requires
        0 < beacons.len(),
        call_ensures(Beacon::new, (), beacons[0]),
        forall|i: int|
            0 <= i < beacons.len() - 1 ==> call_ensures(
                Beacon::step,
                (#[trigger] beacons[i],),
                beacons[i + 1],
            ),
        call_ensures(Beacon::frame, (&beacons.last(),), color),
        call_ensures(Beacon::frames, (&beacons.last(),), frames),
    ensures
        ({
            let number = beacons.len() - 1;
            &&& frames == number
            &&& number % 200 < 100 ==> color@ == seq![255u8, 255, 0]
            &&& number % 200 >= 100 ==> color@ == seq![0u8, 0, 0]
        }),
{
    lemma_shown_in_order(beacons, beacons.len() - 1);
}

proof fn lemma_shown_in_order(beacons: Seq<Beacon>, number: int)
    requires
        0 <= number < beacons.len(),
        call_ensures(Beacon::new, (), beacons[0]),
        forall|i: int|
            0 <= i < beacons.len() - 1 ==> call_ensures(
                Beacon::step,
                (#[trigger] beacons[i],),
                beacons[i + 1],
            ),
    ensures
        beacons[number].shown() == number,
    decreases number,
{
    if number > 0 {
        lemma_shown_in_order(beacons, number - 1);
        assert(call_ensures(Beacon::step, (beacons[number - 1],), beacons[number - 1 + 1]));
    }
}

/// Once the erase has ended the light, the first one, is green at half its brightness.
pub proof fn law_erased_is_green(color: [u8; 3])
    requires
        call_ensures(erased_color, (), color),
    ensures
        color@[0] == 0,
        color@[1] == 128,
        color@[2] == 0,
        color@.len() == 3,
        BEACON_PIXEL == 0,
{
}

}
