//! The title screen: two buttons, one to play and one to read the rules.

use vstd::prelude::*;

verus! {

/// What the player chose on the title screen in a frame.
#[derive(Clone, Copy, Debug, PartialEq, Eq, Structural)]
pub enum TitleChoice {
    /// Nothing yet.
    Stay,
    /// To start a game.
    Play,
    /// To read the rules.
    Rules,
}

/// The title screen.
#[derive(Clone, Copy, Debug, PartialEq, Eq, Structural)]
pub struct ModeTitle {
    play_highlighted: bool,
    rules_highlighted: bool,
    play_click: bool,
}

/// The title screen as the contracts see it.
pub struct TitleState {
    /// Whether the pointer was over the play button in the last frame.
    pub play_highlighted: bool,
    /// Whether the pointer was over the rules button in the last frame.
    pub rules_highlighted: bool,
    /// Whether the pointer came onto a button in the last frame.
    pub play_click: bool,
}

impl View for ModeTitle {
    type V = TitleState;

    closed spec fn view(&self) -> TitleState {
        TitleState {
            play_highlighted: self.play_highlighted,
            rules_highlighted: self.rules_highlighted,
            play_click: self.play_click,
        }
    }
}

/// The choice that a frame makes: none without a press of the button;
/// with one, the button under the pointer, the play button first.
pub open spec fn title_choice(hovering_play: bool, hovering_rules: bool, pressed: bool) -> TitleChoice {
    if !pressed {
        TitleChoice::Stay
    } else if hovering_play {
        TitleChoice::Play
    } else if hovering_rules {
        TitleChoice::Rules
    } else {
        TitleChoice::Stay
    }
}

impl ModeTitle {
    /// A title screen on which nothing is highlighted.
    pub fn new() -> (title: ModeTitle)
        ensures
            title@ == (TitleState { play_highlighted: false, rules_highlighted: false, play_click: false }),
    {
        ModeTitle { play_highlighted: false, rules_highlighted: false, play_click: false }
    }

    /// Whether the pointer was over the play button in the last frame.
    pub fn play_highlighted(&self) -> (on: bool)
        ensures
            on == self@.play_highlighted,
    {
        self.play_highlighted
    }

    /// Whether the pointer was over the rules button in the last frame.
    pub fn rules_highlighted(&self) -> (on: bool)
        ensures
            on == self@.rules_highlighted,
    {
        self.rules_highlighted
    }

    /// Whether the pointer came onto a button in the last frame, which is
    /// when a click is to be heard.
    pub fn play_click(&self) -> (click: bool)
        ensures
            click == self@.play_click,
    {
        self.play_click
    }

    /// Lets one frame pass, given what the pointer is over and whether the
    /// button was pressed. A click is due when the pointer has come onto a
    /// button that it was not over in the frame before.
    pub fn update(&mut self, hovering_play: bool, hovering_rules: bool, pressed: bool) -> (choice: TitleChoice)
        ensures
            choice == title_choice(hovering_play, hovering_rules, pressed),
            final(self)@ == (TitleState {
                play_highlighted: hovering_play,
                rules_highlighted: hovering_rules,
                play_click: (!old(self)@.play_highlighted && hovering_play) || (!old(self)@.rules_highlighted
                    && hovering_rules),
            }),
    {
        self.play_click = false;
        if !self.play_highlighted && hovering_play {
            self.play_click = true;
        }
        self.play_highlighted = hovering_play;
        if !self.rules_highlighted && hovering_rules {
            self.play_click = true;
        }
        self.rules_highlighted = hovering_rules;
        if pressed {
            if self.play_highlighted {
                TitleChoice::Play
            } else if self.rules_highlighted {
                TitleChoice::Rules
            } else {
                TitleChoice::Stay
            }
        } else {
            TitleChoice::Stay
        }
    }
}

} // verus!
