//! What the user can choose.
//!
//! Sizes in points belong to the window layer; here stand the choices that the logic reads.
use vstd::prelude::*;

verus! {

/// Which key-motion dialect the editor uses.
#[derive(Debug, Clone, Copy, PartialEq, Eq, Structural)]
pub enum MotionMode {
    /// Full Vim modal editing (Normal / Insert / Visual).
    Vim,
    /// Simplified Helix-style selection-first navigation.
    Helix,
    /// Plain editing, no modal layer.
    Plain,
}

impl Default for MotionMode {
    fn default() -> (r: Self)
        ensures
            r == MotionMode::Vim,
    {
        MotionMode::Vim
    }
}

impl MotionMode {
    /// The place of a dialect among the three segments of the settings panel.
    pub open spec fn place(self) -> int {
        match self {
            MotionMode::Vim => 0,
            MotionMode::Helix => 1,
            MotionMode::Plain => 2,
        }
    }

    /// The dialect at a place; whatever is not the first or the second is plain.
    pub open spec fn at(place: int) -> MotionMode {
        if place == 0 {
            MotionMode::Vim
        } else if place == 1 {
            MotionMode::Helix
        } else {
            MotionMode::Plain
        }
    }

    /// The segment that shows this dialect.
    pub fn segment(self) -> (r: usize)
        ensures
            r == self.place(),
    {
        match self {
            MotionMode::Vim => 0,
            MotionMode::Helix => 1,
            MotionMode::Plain => 2,
        }
    }

    /// The dialect that a segment stands for.
    pub fn from_segment(segment: usize) -> (r: Self)
        ensures
            r == MotionMode::at(segment as int),
    {
        match segment {
            0 => MotionMode::Vim,
            1 => MotionMode::Helix,
            _ => MotionMode::Plain,
        }
    }
}

/// The user's choices.
#[derive(Debug, Clone, Copy, PartialEq, Eq, Structural)]
pub struct Settings {
    /// Which key-motion dialect the editor uses.
    pub motion_mode: MotionMode,
    /// Hide the window when it loses keyboard focus.
    pub close_on_focus_loss: bool,
    /// Show the note-navigation arrow buttons.
    pub show_nav_arrows: bool,
    /// Show the page-indicator dots at the top of the window.
    pub show_page_dots: bool,
    /// Show the N / I / V mode indicator.
    pub show_mode_indicator: bool,
    /// Pull on open and push on close.
    pub git_sync: bool,
}

impl Default for Settings {
    fn default() -> (r: Self)
        ensures
            r == (Settings {
                motion_mode: MotionMode::Vim,
                close_on_focus_loss: true,
                show_nav_arrows: true,
                show_page_dots: true,
                show_mode_indicator: true,
                git_sync: false,
            }),
    {
        Settings {
            motion_mode: MotionMode::Vim,
            close_on_focus_loss: true,
            show_nav_arrows: true,
            show_page_dots: true,
            show_mode_indicator: true,
            git_sync: false,
        }
    }
}

/// What the controls of the settings panel show. `None` stands for a control that is not there.
#[derive(Debug, Clone, Copy, PartialEq, Eq, Structural)]
pub struct PanelState {
    /// The selected segment of the dialect control.
    pub segment: Option<usize>,
    /// The states of the check boxes; a box that is ticked has state one.
    pub close: Option<isize>,
    pub arrows: Option<isize>,
    pub dots: Option<isize>,
    pub mode: Option<isize>,
    pub git: Option<isize>,
}

/// Whether a check box counts as ticked. One that is not there does.
pub open spec fn ticked(state: Option<isize>) -> bool {
    match state {
        Some(s) => s == 1,
        None => true,
    }
}

/// The state of a check box that shows `on`.
pub open spec fn box_state(on: bool) -> isize {
    if on {
        1
    } else {
        0
    }
}

fn is_ticked(state: Option<isize>) -> (r: bool)
    ensures
        r == ticked(state),
{
    match state {
        Some(s) => s == 1,
        None => true,
    }
}

fn box_state_of(on: bool) -> (r: isize)
    ensures
        r == box_state(on),
{
    if on {
        1
    } else {
        0
    }
}

impl Settings {
    /// The choices that a settings panel shows.
    pub open spec fn of_panel(p: PanelState) -> Settings {
        Settings {
            motion_mode: match p.segment {
                Some(s) => MotionMode::at(s as int),
                None => MotionMode::Vim,
            },
            close_on_focus_loss: ticked(p.close),
            show_nav_arrows: ticked(p.arrows),
            show_page_dots: ticked(p.dots),
            show_mode_indicator: ticked(p.mode),
            git_sync: ticked(p.git),
        }
    }

    /// What a settings panel shows for these choices.
    pub open spec fn as_panel(self) -> PanelState {
        PanelState {
            segment: Some(self.motion_mode.place() as usize),
            close: Some(box_state(self.close_on_focus_loss)),
            arrows: Some(box_state(self.show_nav_arrows)),
            dots: Some(box_state(self.show_page_dots)),
            mode: Some(box_state(self.show_mode_indicator)),
            git: Some(box_state(self.git_sync)),
        }
    }

    /// Read the settings panel.
    pub fn from_panel(p: &PanelState) -> (r: Self)
        ensures
            r == Settings::of_panel(*p),
    {
        Settings {
            motion_mode: match p.segment {
                Some(s) => MotionMode::from_segment(s),
                None => MotionMode::Vim,
            },
            close_on_focus_loss: is_ticked(p.close),
            show_nav_arrows: is_ticked(p.arrows),
            show_page_dots: is_ticked(p.dots),
            show_mode_indicator: is_ticked(p.mode),
            git_sync: is_ticked(p.git),
        }
    }

    /// What the settings panel has to show.
    pub fn to_panel(&self) -> (r: PanelState)
        ensures
            r == self.as_panel(),
    {
        PanelState {
            segment: Some(self.motion_mode.segment()),
            close: Some(box_state_of(self.close_on_focus_loss)),
            arrows: Some(box_state_of(self.show_nav_arrows)),
            dots: Some(box_state_of(self.show_page_dots)),
            mode: Some(box_state_of(self.show_mode_indicator)),
            git: Some(box_state_of(self.git_sync)),
        }
    }

    /// Whether the window hides when it loses the keyboard: if the user wants that, unless it is
    /// the settings window that takes the keyboard over.
    pub fn hides_on_focus_loss(&self, settings_window_has_focus: bool) -> (r: bool)
        ensures
            r == (self.close_on_focus_loss && !settings_window_has_focus),
    {
        self.close_on_focus_loss && !settings_window_has_focus
    }
}

/// A settings panel that is closed as it was opened changes nothing.
pub proof fn panel_round_trip(s: Settings)
    ensures
        Settings::of_panel(s.as_panel()) == s,
{
}

/// The three dialects stand in the panel in the order Vim, Helix, plain.
pub proof fn dialects_have_their_segments(place: int)
    ensures
        MotionMode::Vim.place() == 0,
        MotionMode::Helix.place() == 1,
        MotionMode::Plain.place() == 2,
        MotionMode::at(0) == MotionMode::Vim,
        MotionMode::at(1) == MotionMode::Helix,
        place != 0 && place != 1 ==> MotionMode::at(place) == MotionMode::Plain,
{
}

/// Each control of the panel shows its own setting: a box has state one where the setting is on and
/// state zero where it is off.
pub proof fn controls_show_their_settings(s: Settings)
    ensures
        s.as_panel().segment == Some(s.motion_mode.place() as usize),
        s.as_panel().close == Some(if s.close_on_focus_loss { 1isize } else { 0isize }),
        s.as_panel().arrows == Some(if s.show_nav_arrows { 1isize } else { 0isize }),
        s.as_panel().dots == Some(if s.show_page_dots { 1isize } else { 0isize }),
        s.as_panel().mode == Some(if s.show_mode_indicator { 1isize } else { 0isize }),
        s.as_panel().git == Some(if s.git_sync { 1isize } else { 0isize }),
{
}

/// Each setting is read from its own control: it is on where its box has state one, and where the
/// box is not there. Without the dialect control the dialect is Vim.
pub proof fn settings_are_read_from_their_controls(p: PanelState)
    ensures
        p.segment is None ==> Settings::of_panel(p).motion_mode == MotionMode::Vim,
        p.segment matches Some(i) ==> Settings::of_panel(p).motion_mode == MotionMode::at(i as int),
        Settings::of_panel(p).close_on_focus_loss <==> p.close is None || p.close == Some(1isize),
        Settings::of_panel(p).show_nav_arrows <==> p.arrows is None || p.arrows == Some(1isize),
        Settings::of_panel(p).show_page_dots <==> p.dots is None || p.dots == Some(1isize),
        Settings::of_panel(p).show_mode_indicator <==> p.mode is None || p.mode == Some(1isize),
        Settings::of_panel(p).git_sync <==> p.git is None || p.git == Some(1isize),
{
}

} // verus!
