use vstd::prelude::*;

use crate::input::Event;
use crate::stages::Stage;

verus! {

/// The stage a main-menu entry leads to, by entry position (0 = topmost).
pub open spec fn menu_item(idx: int) -> Stage {
    if idx == 0 {
        Stage::Playing
    } else if idx == 1 {
        Stage::HowToPlay
    } else {
        Stage::About
    }
}

/// The main menu's state: which of its three entries is selected. The
/// labels and the selection indicator around them are the renderer's
/// concern.
pub struct MainMenu {
    pub selected_item_idx: usize,
}

impl MainMenu {
    pub fn new() -> (m: MainMenu)
        ensures
            m.selected_item_idx == 0,
    {
        MainMenu { selected_item_idx: 0 }
    }

    /// The stage behind the entry at the given position.
    pub fn select_item(&self, item_idx: usize) -> (s: Stage)
        requires
            item_idx < 3,
        ensures
            s == menu_item(item_idx as int),
    {
        if item_idx == 0 {
            Stage::Playing
        } else if item_idx == 1 {
            Stage::HowToPlay
        } else {
            Stage::About
        }
    }

    /// One menu tick: Down and Up move the selection cyclically through the
    /// three entries, Enter opens the selected entry's stage, Escape quits
    /// the application (the caller reads `None` as quit), anything else
    /// keeps the menu unchanged.
    pub fn update(&mut self, input_event: Event) -> (r: Option<Stage>)
        requires
            old(self).selected_item_idx < 3,
        ensures
            final(self).selected_item_idx < 3,
            match input_event {
                Event::Down => final(self).selected_item_idx == (old(self).selected_item_idx + 1)
                    % 3 && r == Some(Stage::MainMenu),
                Event::Up => final(self).selected_item_idx == (old(self).selected_item_idx + 2) % 3
                    && r == Some(Stage::MainMenu),
                Event::Enter => final(self).selected_item_idx == old(self).selected_item_idx && r
                    == Some(menu_item(old(self).selected_item_idx as int)),
                Event::Escape => final(self).selected_item_idx == old(self).selected_item_idx && r
                    is None,
                _ => final(self).selected_item_idx == old(self).selected_item_idx && r == Some(
                    Stage::MainMenu,
                ),
            },
    {
        match input_event {
            Event::Down => {
                self.selected_item_idx = self.selected_item_idx + 1;
                if self.selected_item_idx > 2 {
                    self.selected_item_idx = 0;
                }
                Some(Stage::MainMenu)
            },
            Event::Up => {
                if self.selected_item_idx == 0 {
                    self.selected_item_idx = 3;
                }
                self.selected_item_idx = self.selected_item_idx - 1;
                Some(Stage::MainMenu)
            },
            Event::Enter => Some(self.select_item(self.selected_item_idx)),
            Event::Escape => None,
            _ => Some(Stage::MainMenu),
        }
    }
}

} // verus!
