//! A moon lander: speed and angle, thrust and its angle, fuel, and a
//! picture of the way to the moon in the last corner.

use vstd::prelude::*;
use crate::game::position::Position;
use crate::game::GameMode;
use crate::screen::{Screen, written};

verus! {

broadcast use crate::screen::lemma_extends_refl;

#[allow(non_snake_case)]
pub struct MoonLanding {
    pub speedX: u8,
    pub speedY: u8,
    pub speedAngle: u8,
    pub thrustPower: u8,
    pub thrustAngle: u8,
    pub fuel: u8,
    pub gravity: u8,
    pub shipMass: u8,
    pub speedDisplay: Position,
    pub thrustDisplay: Position,
    pub fuelDisplay: Position,
    pub placeHolder: Position,
}

impl MoonLanding {
    /// Clears the screen and greets the player.
    pub fn draw_full_screen(&mut self, screen: &mut Screen)
        requires
            old(screen).wf(),
        ensures
            final(screen).extends(*old(screen)),
            final(screen)@.character_set == old(screen)@.character_set,
            final(screen)@.cells == written(
                Seq::new(32, |k: int| 32u8),
                0,
                0,
                seq![72u8, 101, 108, 108, 111, 44, 32, 115, 112, 97, 97, 97, 99, 101],
            ),
    {
        let ghost s0 = *screen;
        screen.set_cursor(self.thrustDisplay);
        let ghost a = *screen;
        screen.clear();
        let text = [72u8, 101, 108, 108, 111, 44, 32, 115, 112, 97, 97, 97, 99, 101];
        let ghost s1 = *screen;
        screen.print_bytes(&text);
        assert(text@ =~= seq![72u8, 101, 108, 108, 111, 44, 32, 115, 112, 97, 97, 97, 99, 101]);
        proof {
            crate::screen::lemma_extends_trans(s0, a, s1);
            crate::screen::lemma_extends_trans(s0, s1, *screen);
        }
    }

    /// One frame: nothing moves yet.
    pub fn update(&mut self, screen: &mut Screen, raw_input: [i8; 2], soft_input: [i8; 2]) -> (mode:
        Option<GameMode>)
        ensures
            mode is None,
            *final(self) == *old(self),
            *final(screen) == *old(screen),
    {
        None
    }
}

} // verus!
