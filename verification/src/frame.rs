//! Frame pacing: 60 frames a second on a millisecond clock, so most frames
//! last 17 ms and every third one 16 ms.

use vstd::prelude::*;

verus! {

pub const FPS: u32 = 60;

/// The whole milliseconds of a frame.
pub const FRAME_TIME_MILLISECONDS: u32 = 16;

/// The milliseconds of a second that whole-millisecond frames leave over.
pub const TOTAL_FRAME_TIME_DEFICIT: u32 = 40;

/// Two frames out of three make up the deficit with one more millisecond.
pub const DEFICIT_NUMERATOR: u32 = 2;

pub const DEFICIT_DENOMINATOR: u32 = 3;

/// How long the frame with deficit counter `deficit` lasts.
pub open spec fn frame_length(deficit: int) -> int {
    if deficit >= DEFICIT_NUMERATOR {
        FRAME_TIME_MILLISECONDS as int
    } else {
        FRAME_TIME_MILLISECONDS + 1
    }
}

/// The length of the frame with deficit counter `deficit`, and the counter
/// for the next frame.
pub fn frame_time(deficit: u8) -> (timing: (u32, u8))
    requires
        deficit < DEFICIT_DENOMINATOR,
    ensures
        timing.0 == frame_length(deficit as int),
        timing.1 == (deficit + 1) % (DEFICIT_DENOMINATOR as int),
{
    let length = if deficit as u32 >= DEFICIT_NUMERATOR {
        FRAME_TIME_MILLISECONDS
    } else {
        FRAME_TIME_MILLISECONDS + 1
    };
    (length, (deficit + 1) % 3)
}

/// The frames make up whole seconds: any three frames in a row last 50 ms,
/// so the 60 frames of a second last 1000 ms.
pub proof fn law_frames_fill_seconds(deficit: int)
    requires
        0 <= deficit < DEFICIT_DENOMINATOR,
    ensures
        frame_length(deficit) + frame_length((deficit + 1) % 3) + frame_length((deficit + 2) % 3)
            == 50,
        FPS / DEFICIT_DENOMINATOR * 50 == 1000int,
        FRAME_TIME_MILLISECONDS == 1000u32 / FPS,
        TOTAL_FRAME_TIME_DEFICIT == 1000 - FRAME_TIME_MILLISECONDS * FPS,
        DEFICIT_NUMERATOR * FPS == TOTAL_FRAME_TIME_DEFICIT * DEFICIT_DENOMINATOR,
{
}

} // verus!
