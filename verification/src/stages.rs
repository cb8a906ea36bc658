use vstd::prelude::*;

pub mod main_menu;
pub mod playing;

verus! {

/// The screens of the application; the playing stage holds the game core.
#[derive(Clone, Copy, Debug, PartialEq, Eq, Structural)]
pub enum Stage {
    MainMenu,
    Playing,
    HowToPlay,
    About,
}

} // verus!
