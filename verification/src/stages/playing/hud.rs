use vstd::prelude::*;

verus! {

/// Which banner the playing screen shows over the arena. The core picks
/// the banner; rendering it (text, colors, blinking) is the host's
/// concern. `NoInfo` means no banner.
#[derive(Clone, Copy, Debug, PartialEq, Eq, Structural)]
pub enum GameInfoType {
    NoInfo,
    Ready,
    Go,
    Pause,
    GameOver,
    Speedup,
}

} // verus!
