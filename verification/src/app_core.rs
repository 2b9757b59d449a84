//! Which note is open, and what the controls around the editor decide.
use vstd::prelude::*;

use crate::gestures::SwipeDir;
use crate::settings::Settings;
use crate::storage::{IndexState, NoteId, NoteStore};

verus! {

/// What a click on the menu-bar icon does.
#[derive(Debug, Clone, Copy, PartialEq, Eq, Structural)]
pub enum ClickAction {
    ShowMenu,
    HideWindow,
    ShowWindow,
}

/// A right click opens the menu, a left click toggles the window.
pub fn status_click(right_button: bool, window_visible: bool) -> (r: ClickAction)
    ensures
        r == (if right_button {
            ClickAction::ShowMenu
        } else if window_visible {
            ClickAction::HideWindow
        } else {
            ClickAction::ShowWindow
        }),
{
    if right_button {
        ClickAction::ShowMenu
    } else if window_visible {
        ClickAction::HideWindow
    } else {
        ClickAction::ShowWindow
    }
}

/// The state of the notepad.
#[verifier::ext_equal]
pub struct CoreState {
    pub index: IndexState,
    pub settings: Settings,
    /// The page that is open.
    pub current: int,
    /// The text that the editor held when a pull was started.
    pub before_pull: Option<Seq<char>>,
}

impl CoreState {
    /// The page that is open exists.
    pub open spec fn wf(self) -> bool {
        0 <= self.current < self.index.notes.len()
    }

    /// The page after this one. Behind the last page a fresh one is created.
    pub open spec fn next(self) -> CoreState {
        CoreState {
            index: if self.current + 1 < self.index.notes.len() {
                self.index
            } else {
                self.index.create()
            },
            current: self.current + 1,
            ..self
        }
    }

    /// The page before this one, or this one where it is the first.
    pub open spec fn prev(self) -> CoreState {
        CoreState {
            current: if self.current > 0 {
                self.current - 1
            } else {
                self.current
            },
            ..self
        }
    }
}

/// The notes, the settings and the page that is open.
pub struct AppCore {
    store: NoteStore,
    settings: Settings,
    current_note: usize,
    pre_pull_content: Option<String>,
}

impl View for AppCore {
    type V = CoreState;

    closed spec fn view(&self) -> CoreState {
        CoreState {
            index: self.store@,
            settings: self.settings,
            current: self.current_note as int,
            before_pull: match self.pre_pull_content {
                Some(s) => Some(s@),
                None => None,
            },
        }
    }
}

impl AppCore {
    /// The page that is open exists.
    pub open spec fn wf(&self) -> bool {
        self@.wf()
    }

    /// Start on the first page.
    pub fn new(store: NoteStore, settings: Settings) -> (r: Self)
        ensures
            r@ == (CoreState { index: store@, settings, current: 0, before_pull: None }),
            r.wf() <==> store@.notes.len() > 0,
    {
        AppCore { store, settings, current_note: 0, pre_pull_content: None }
    }

    pub fn store(&self) -> (r: &NoteStore)
        ensures
            r@ == self@.index,
    {
        &self.store
    }

    pub fn settings(&self) -> (r: Settings)
        ensures
            r == self@.settings,
    {
        self.settings
    }

    pub fn set_settings(&mut self, settings: Settings)
        ensures
            final(self)@ == (CoreState { settings, ..old(self)@ }),
    {
        self.settings = settings;
    }

    /// The note that is open: the one to load, and the one to save to.
    pub fn current_id(&self) -> (r: NoteId)
        requires
            self.wf(),
        ensures
            r == self@.index.notes[self@.current],
    {
        self.store.id_at(self.current_note)
    }

    /// How many pages there are and which one is open.
    pub fn page_state(&self) -> (r: (usize, usize))
        ensures
            r.0 == self@.index.notes.len(),
            r.1 == self@.current,
    {
        (self.store.len(), self.current_note)
    }

    /// Go to the next page. Returns the note that was created for it, if one was.
    pub fn go_next_note(&mut self) -> (r: Option<NoteId>)
        requires
            old(self).wf(),
            old(self)@.current + 1 == old(self)@.index.notes.len() ==> old(self)@.index.next_id
                < u32::MAX,
        ensures
            final(self)@ == old(self)@.next(),
            final(self).wf(),
            r == (if old(self)@.current + 1 < old(self)@.index.notes.len() {
                None
            } else {
                Some(final(self)@.index.notes.last())
            }),
    {
        let last: usize = self.store.len() - 1;
        if self.current_note >= last {
            let id = self.store.create_note();
            self.current_note = self.store.len() - 1;
            Some(id)
        } else {
            self.current_note = self.current_note + 1;
            None
        }
    }

    /// Go to the previous page.
    pub fn go_prev_note(&mut self)
        ensures
            final(self)@ == old(self)@.prev(),
            old(self).wf() ==> final(self).wf(),
    {
        if self.current_note > 0 {
            self.current_note = self.current_note - 1;
        }
    }

    /// Turn the page: a swipe to the left leads to the next one. Returns the note that was created
    /// for it, if one was.
    pub fn turn_page(&mut self, dir: SwipeDir) -> (r: Option<NoteId>)
        requires
            old(self).wf(),
            dir == SwipeDir::Left && old(self)@.current + 1 == old(self)@.index.notes.len()
                ==> old(self)@.index.next_id < u32::MAX,
        ensures
            final(self)@ == (if dir == SwipeDir::Left {
                old(self)@.next()
            } else {
                old(self)@.prev()
            }),
            final(self).wf(),
            r == (if dir == SwipeDir::Left && old(self)@.current + 1
                == old(self)@.index.notes.len() {
                Some(final(self)@.index.notes.last())
            } else {
                None
            }),
    {
        match dir {
            SwipeDir::Left => self.go_next_note(),
            SwipeDir::Right => {
                self.go_prev_note();
                None
            },
        }
    }

    /// A pull starts while the editor holds `content`.
    pub fn start_pull(&mut self, content: String)
        ensures
            final(self)@ == (CoreState { before_pull: Some(content@), ..old(self)@ }),
    {
        self.pre_pull_content = Some(content);
    }

    /// A pull is over: take over the notes that were read again, if they could be read. Returns
    /// whether the page is to be loaded again, which it is where the editor still holds what it
    /// held when the pull was started.
    pub fn reload_notes_after_pull(
        &mut self,
        store: Option<NoteStore>,
        content: Option<String>,
    ) -> (r: bool)
        ensures
            final(self)@ == (CoreState {
                index: match store {
                    Some(s) => s@,
                    None => old(self)@.index,
                },
                before_pull: None,
                ..old(self)@
            }),
            final(self).wf() <==> old(self)@.current < final(self)@.index.notes.len(),
            r <==> (old(self)@.before_pull matches Some(before) && content matches Some(now) && now@
                == before),
    {
        if let Some(s) = store {
            self.store = s;
        }
        let unchanged: bool = match &self.pre_pull_content {
            Some(before) => match &content {
                Some(now) => *now == *before,
                None => false,
            },
            None => false,
        };
        self.pre_pull_content = None;
        unchanged
    }
}

/// The next page and back is the page that was open.
pub proof fn next_then_prev_returns(s: CoreState)
    requires
        s.wf(),
    ensures
        s.next().prev().current == s.current,
        s.next().prev().index.notes[s.current] == s.index.notes[s.current],
{
}

/// Turning pages never drops or moves a note.
pub proof fn turning_pages_keeps_the_notes(s: CoreState, i: int)
    requires
        s.wf(),
        0 <= i < s.index.notes.len(),
    ensures
        s.next().index.notes[i] == s.index.notes[i],
        s.prev().index == s.index,
        s.next().wf(),
        s.prev().wf(),
{
}

/// From a page that is not the last one the next page is the one behind it, and no note changes;
/// behind the last page a new note is created and opened. The page before is the one in front, or
/// the first page itself. Nothing else changes.
pub proof fn pages_follow_each_other(s: CoreState)
    requires
        s.wf(),
        0 <= s.index.next_id < u32::MAX,
    ensures
        s.next().current == s.current + 1,
        s.current + 1 < s.index.notes.len() ==> s.next().index == s.index,
        s.current + 1 == s.index.notes.len() ==> {
            &&& s.next().index.notes.len() == s.index.notes.len() + 1
            &&& s.next().index.notes[s.next().current].0 == s.index.next_id
            &&& s.next().index.next_id == s.index.next_id + 1
        },
        s.current > 0 ==> s.prev().current == s.current - 1,
        s.current == 0 ==> s.prev().current == 0,
        s.prev().index == s.index,
        s.next().settings == s.settings && s.prev().settings == s.settings,
        s.next().before_pull == s.before_pull && s.prev().before_pull == s.before_pull,
{
}

} // verus!
