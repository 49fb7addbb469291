//! What requests read of the sessions: names, windows and panes with their
//! indexes and lasting ids.
use crate::text;
use vstd::prelude::*;

verus! {

/// A pane of a window.
#[derive(Debug, Clone, Copy, PartialEq, Eq, Structural)]
pub struct Pane {
    pub index: u32,
    pub id: u32,
}

/// A window of a session.
#[derive(Debug, PartialEq, Eq)]
pub struct Window {
    pub index: u32,
    pub id: u32,
    pub panes: Vec<Pane>,
    pub active_pane_index: u32,
}

/// A session. A name may pass to another session; the id stays.
#[derive(Debug, PartialEq, Eq)]
pub struct Session {
    pub name: String,
    pub id: u32,
    pub windows: Vec<Window>,
    pub active_window_index: u32,
}

/// All sessions.
#[derive(Debug, PartialEq, Eq)]
pub struct SessionStore {
    pub sessions: Vec<Session>,
}

/// A window by its place.
#[derive(Debug, PartialEq, Eq)]
pub struct WindowTarget {
    pub session_name: String,
    pub window_index: u32,
}

/// A pane by its place.
#[derive(Debug, PartialEq, Eq)]
pub struct PaneTarget {
    pub session_name: String,
    pub window_index: u32,
    pub pane_index: u32,
}

/// A window's place as a value.
pub type WindowPlace = (Seq<char>, u32);

/// A pane's place as a value.
pub type PanePlace = (Seq<char>, u32, u32);

impl View for WindowTarget {
    type V = WindowPlace;

    open spec fn view(&self) -> WindowPlace {
        (self.session_name@, self.window_index)
    }
}

impl View for PaneTarget {
    type V = PanePlace;

    open spec fn view(&self) -> PanePlace {
        (self.session_name@, self.window_index, self.pane_index)
    }
}

impl Clone for WindowTarget {
    fn clone(&self) -> (copy: Self)
        ensures
            copy@ == self@,
    {
        WindowTarget { session_name: self.session_name.clone(), window_index: self.window_index }
    }
}

impl Clone for PaneTarget {
    fn clone(&self) -> (copy: Self)
        ensures
            copy@ == self@,
    {
        PaneTarget {
            session_name: self.session_name.clone(),
            window_index: self.window_index,
            pane_index: self.pane_index,
        }
    }
}

/// A window's place in words, `session:window`.
pub open spec fn window_place_text(place: WindowPlace) -> Seq<char> {
    place.0 + ":"@ + text::decimal(place.1 as nat)
}

/// A pane's place in words, `session:window.pane`.
pub open spec fn pane_place_text(place: PanePlace) -> Seq<char> {
    window_place_text((place.0, place.1)) + "."@ + text::decimal(place.2 as nat)
}

/// A window's place in words.
pub fn window_text(session_name: &str, window_index: u32) -> (text: String)
    ensures
        text@ == window_place_text((session_name@, window_index)),
{
    let mut text = session_name.to_owned();
    text.append(":");
    text::push_decimal(&mut text, window_index as u64);
    text
}

impl WindowTarget {
    /// The target in words.
    pub fn to_text(&self) -> (text: String)
        ensures
            text@ == window_place_text(self@),
    {
        window_text(self.session_name.as_str(), self.window_index)
    }
}

impl PaneTarget {
    /// The target in words.
    pub fn to_text(&self) -> (text: String)
        ensures
            text@ == pane_place_text(self@),
    {
        let mut text = window_text(self.session_name.as_str(), self.window_index);
        text.append(".");
        text::push_decimal(&mut text, self.pane_index as u64);
        text
    }
}

/// The place of the first session named `name`.
pub open spec fn session_named(sessions: Seq<Session>, name: Seq<char>) -> Option<int>
    decreases sessions.len(),
{
    if sessions.len() == 0 {
        None
    } else if sessions[0].name@ == name {
        Some(0)
    } else {
        match session_named(sessions.subrange(1, sessions.len() as int), name) {
            Some(at) => Some(at + 1),
            None => None,
        }
    }
}

/// The place of the first session with the id `id`.
pub open spec fn session_with_id(sessions: Seq<Session>, id: u32) -> Option<int>
    decreases sessions.len(),
{
    if sessions.len() == 0 {
        None
    } else if sessions[0].id == id {
        Some(0)
    } else {
        match session_with_id(sessions.subrange(1, sessions.len() as int), id) {
            Some(at) => Some(at + 1),
            None => None,
        }
    }
}

/// The place of the first window with the index `index`.
pub open spec fn window_with_index(windows: Seq<Window>, index: u32) -> Option<int>
    decreases windows.len(),
{
    if windows.len() == 0 {
        None
    } else if windows[0].index == index {
        Some(0)
    } else {
        match window_with_index(windows.subrange(1, windows.len() as int), index) {
            Some(at) => Some(at + 1),
            None => None,
        }
    }
}

/// The first pane with the index `index`.
pub open spec fn pane_with_index(panes: Seq<Pane>, index: u32) -> Option<Pane>
    decreases panes.len(),
{
    if panes.len() == 0 {
        None
    } else if panes[0].index == index {
        Some(panes[0])
    } else {
        pane_with_index(panes.subrange(1, panes.len() as int), index)
    }
}

/// The first pane with the id `id`.
pub open spec fn pane_with_id(panes: Seq<Pane>, id: u32) -> Option<Pane>
    decreases panes.len(),
{
    if panes.len() == 0 {
        None
    } else if panes[0].id == id {
        Some(panes[0])
    } else {
        pane_with_id(panes.subrange(1, panes.len() as int), id)
    }
}

/// The place of the first window that has a pane with the id `id`.
pub open spec fn window_holding_pane(windows: Seq<Window>, id: u32) -> Option<int>
    decreases windows.len(),
{
    if windows.len() == 0 {
        None
    } else if pane_with_id(windows[0].panes@, id) is Some {
        Some(0)
    } else {
        match window_holding_pane(windows.subrange(1, windows.len() as int), id) {
            Some(at) => Some(at + 1),
            None => None,
        }
    }
}

impl Window {
    /// The pane with the index `index`.
    pub fn pane(&self, index: u32) -> (pane: Option<Pane>)
        ensures
            pane == pane_with_index(self.panes@, index),
    {
        let mut i: usize = 0;
        assert(self.panes@.subrange(0, self.panes@.len() as int) =~= self.panes@);
        while i < self.panes.len()
            invariant
                i <= self.panes@.len(),
                pane_with_index(self.panes@, index) == pane_with_index(
                    self.panes@.subrange(i as int, self.panes@.len() as int),
                    index,
                ),
            decreases self.panes.len() - i,
        {
            let ghost rest = self.panes@.subrange(i as int, self.panes@.len() as int);
            assert(rest[0] == self.panes@[i as int]);
            if self.panes[i].index == index {
                return Some(self.panes[i]);
            }
            assert(rest.subrange(1, rest.len() as int) =~= self.panes@.subrange(
                i + 1,
                self.panes@.len() as int,
            ));
            i = i + 1;
        }
        None
    }

    /// The pane with the id `id`.
    pub fn pane_by_id(&self, id: u32) -> (pane: Option<Pane>)
        ensures
            pane == pane_with_id(self.panes@, id),
    {
        let mut i: usize = 0;
        assert(self.panes@.subrange(0, self.panes@.len() as int) =~= self.panes@);
        while i < self.panes.len()
            invariant
                i <= self.panes@.len(),
                pane_with_id(self.panes@, id) == pane_with_id(
                    self.panes@.subrange(i as int, self.panes@.len() as int),
                    id,
                ),
            decreases self.panes.len() - i,
        {
            let ghost rest = self.panes@.subrange(i as int, self.panes@.len() as int);
            assert(rest[0] == self.panes@[i as int]);
            if self.panes[i].id == id {
                return Some(self.panes[i]);
            }
            assert(rest.subrange(1, rest.len() as int) =~= self.panes@.subrange(
                i + 1,
                self.panes@.len() as int,
            ));
            i = i + 1;
        }
        None
    }
}

impl Session {
    /// The window with the index `index`.
    pub open spec fn window_spec(&self, index: u32) -> Option<Window> {
        match window_with_index(self.windows@, index) {
            Some(at) => Some(self.windows@[at]),
            None => None,
        }
    }

    /// The window that has a pane with the id `id`.
    pub open spec fn window_of_pane_spec(&self, id: u32) -> Option<Window> {
        match window_holding_pane(self.windows@, id) {
            Some(at) => Some(self.windows@[at]),
            None => None,
        }
    }

    /// The window with the index `index`.
    pub fn window_at(&self, index: u32) -> (window: Option<&Window>)
        ensures
            match window {
                Some(window) => self.window_spec(index) == Some(*window) && window.index == index,
                None => self.window_spec(index) is None,
            },
    {
        let mut i: usize = 0;
        let ghost all = self.windows@;
        assert(all.subrange(0, all.len() as int) =~= all);
        while i < self.windows.len()
            invariant
                i <= all.len(),
                all == self.windows@,
                window_with_index(all, index) == match window_with_index(
                    all.subrange(i as int, all.len() as int),
                    index,
                ) {
                    Some(at) => Some(at + i),
                    None => None,
                },
            decreases self.windows.len() - i,
        {
            let ghost rest = all.subrange(i as int, all.len() as int);
            assert(rest[0] == all[i as int]);
            if self.windows[i].index == index {
                return Some(&self.windows[i]);
            }
            assert(rest.subrange(1, rest.len() as int) =~= all.subrange(i + 1, all.len() as int));
            i = i + 1;
        }
        None
    }

    /// The window that has a pane with the id `id`.
    pub fn window_of_pane(&self, id: u32) -> (window: Option<&Window>)
        ensures
            match window {
                Some(window) => self.window_of_pane_spec(id) == Some(*window) && pane_with_id(
                    window.panes@,
                    id,
                ) is Some,
                None => self.window_of_pane_spec(id) is None,
            },
    {
        let mut i: usize = 0;
        let ghost all = self.windows@;
        assert(all.subrange(0, all.len() as int) =~= all);
        while i < self.windows.len()
            invariant
                i <= all.len(),
                all == self.windows@,
                window_holding_pane(all, id) == match window_holding_pane(
                    all.subrange(i as int, all.len() as int),
                    id,
                ) {
                    Some(at) => Some(at + i),
                    None => None,
                },
            decreases self.windows.len() - i,
        {
            let ghost rest = all.subrange(i as int, all.len() as int);
            assert(rest[0] == all[i as int]);
            if self.windows[i].pane_by_id(id).is_some() {
                return Some(&self.windows[i]);
            }
            assert(rest.subrange(1, rest.len() as int) =~= all.subrange(i + 1, all.len() as int));
            i = i + 1;
        }
        None
    }
}

impl SessionStore {
    /// The session named `name`.
    pub open spec fn session_spec(&self, name: Seq<char>) -> Option<Session> {
        match session_named(self.sessions@, name) {
            Some(at) => Some(self.sessions@[at]),
            None => None,
        }
    }

    /// The session with the id `id`.
    pub open spec fn session_by_id_spec(&self, id: u32) -> Option<Session> {
        match session_with_id(self.sessions@, id) {
            Some(at) => Some(self.sessions@[at]),
            None => None,
        }
    }

    /// The session named `name` has the id `id`.
    pub open spec fn names(&self, name: Seq<char>, id: u32) -> bool {
        self.session_spec(name) matches Some(session) && session.id == id
    }

    /// The session named `name`.
    pub fn session(&self, name: &str) -> (session: Option<&Session>)
        ensures
            match session {
                Some(session) => self.session_spec(name@) == Some(*session) && session.name@
                    == name@,
                None => self.session_spec(name@) is None,
            },
    {
        let mut i: usize = 0;
        let ghost all = self.sessions@;
        assert(all.subrange(0, all.len() as int) =~= all);
        while i < self.sessions.len()
            invariant
                i <= all.len(),
                all == self.sessions@,
                session_named(all, name@) == match session_named(
                    all.subrange(i as int, all.len() as int),
                    name@,
                ) {
                    Some(at) => Some(at + i),
                    None => None,
                },
            decreases self.sessions.len() - i,
        {
            let ghost rest = all.subrange(i as int, all.len() as int);
            assert(rest[0] == all[i as int]);
            if text::same_text(self.sessions[i].name.as_str(), name) {
                return Some(&self.sessions[i]);
            }
            assert(rest.subrange(1, rest.len() as int) =~= all.subrange(i + 1, all.len() as int));
            i = i + 1;
        }
        None
    }

    /// The session with the id `id`.
    pub fn session_by_id(&self, id: u32) -> (session: Option<&Session>)
        ensures
            match session {
                Some(session) => self.session_by_id_spec(id) == Some(*session) && session.id == id,
                None => self.session_by_id_spec(id) is None,
            },
    {
        let mut i: usize = 0;
        let ghost all = self.sessions@;
        assert(all.subrange(0, all.len() as int) =~= all);
        while i < self.sessions.len()
            invariant
                i <= all.len(),
                all == self.sessions@,
                session_with_id(all, id) == match session_with_id(
                    all.subrange(i as int, all.len() as int),
                    id,
                ) {
                    Some(at) => Some(at + i),
                    None => None,
                },
            decreases self.sessions.len() - i,
        {
            let ghost rest = all.subrange(i as int, all.len() as int);
            assert(rest[0] == all[i as int]);
            if self.sessions[i].id == id {
                return Some(&self.sessions[i]);
            }
            assert(rest.subrange(1, rest.len() as int) =~= all.subrange(i + 1, all.len() as int));
            i = i + 1;
        }
        None
    }

    /// Whether a session named `name` exists.
    pub fn contains_session(&self, name: &str) -> (contains: bool)
        ensures
            contains == (self.session_spec(name@) is Some),
    {
        self.session(name).is_some()
    }

    /// Whether the session named `name` has the id `id`.
    pub fn session_has_id(&self, name: &str, id: u32) -> (has: bool)
        ensures
            has == self.names(name@, id),
    {
        match self.session(name) {
            Some(session) => session.id == id,
            None => false,
        }
    }
}

/// The session that a name finds is the first that has it; where none is found, no
/// session has the name. The same holds of ids.
pub proof fn a_session_is_found_by_its_name(sessions: Seq<Session>, name: Seq<char>, id: u32)
    ensures
        match session_named(sessions, name) {
            Some(at) => 0 <= at < sessions.len() && sessions[at].name@ == name && forall|j: int|
                0 <= j < at ==> (#[trigger] sessions[j]).name@ != name,
            None => forall|j: int| 0 <= j < sessions.len() ==> (#[trigger] sessions[j]).name@ != name,
        },
        match session_with_id(sessions, id) {
            Some(at) => 0 <= at < sessions.len() && sessions[at].id == id && forall|j: int|
                0 <= j < at ==> (#[trigger] sessions[j]).id != id,
            None => forall|j: int| 0 <= j < sessions.len() ==> (#[trigger] sessions[j]).id != id,
        },
    decreases sessions.len(),
{
    if sessions.len() > 0 {
        let rest = sessions.subrange(1, sessions.len() as int);
        a_session_is_found_by_its_name(rest, name, id);
        assert forall|j: int| 1 <= j < sessions.len() implies #[trigger] sessions[j] == rest[j - 1] by {}
    }
}

/// The window that an index finds is the first that has it; where none is found, none
/// has it.
pub proof fn a_window_is_found_by_its_index(windows: Seq<Window>, wanted: u32)
    ensures
        match window_with_index(windows, wanted) {
            Some(at) => 0 <= at < windows.len() && windows[at].index == wanted && forall|j: int|
                0 <= j < at ==> (#[trigger] windows[j]).index != wanted,
            None => forall|j: int|
                0 <= j < windows.len() ==> (#[trigger] windows[j]).index != wanted,
        },
    decreases windows.len(),
{
    if windows.len() > 0 {
        let rest = windows.subrange(1, windows.len() as int);
        a_window_is_found_by_its_index(rest, wanted);
        assert forall|j: int| 1 <= j < windows.len() implies #[trigger] windows[j] == rest[j - 1] by {}
    }
}

/// A pane is found by its index among the indexes and by its id among the ids, and is
/// the first that has it.
pub proof fn a_pane_is_found_by_its_index_or_id(panes: Seq<Pane>, wanted: u32)
    ensures
        match pane_with_index(panes, wanted) {
            Some(pane) => pane.index == wanted && panes.contains(pane),
            None => forall|j: int| 0 <= j < panes.len() ==> (#[trigger] panes[j]).index != wanted,
        },
        match pane_with_id(panes, wanted) {
            Some(pane) => pane.id == wanted && panes.contains(pane),
            None => forall|j: int| 0 <= j < panes.len() ==> (#[trigger] panes[j]).id != wanted,
        },
        panes.len() > 0 && panes[0].index == wanted ==> pane_with_index(panes, wanted) == Some(
            panes[0],
        ),
        panes.len() > 0 && panes[0].id == wanted ==> pane_with_id(panes, wanted) == Some(panes[0]),
    decreases panes.len(),
{
    if panes.len() > 0 {
        let rest = panes.subrange(1, panes.len() as int);
        a_pane_is_found_by_its_index_or_id(rest, wanted);
        assert forall|j: int| 1 <= j < panes.len() implies #[trigger] panes[j] == rest[j - 1] by {}
        assert(panes[0] == panes.first());
        if let Some(pane) = pane_with_index(rest, wanted) {
            let j = choose|j: int| 0 <= j < rest.len() && rest[j] == pane;
            assert(panes[j + 1] == pane);
        }
        if let Some(pane) = pane_with_id(rest, wanted) {
            let j = choose|j: int| 0 <= j < rest.len() && rest[j] == pane;
            assert(panes[j + 1] == pane);
        }
    }
}

/// The window that holds a pane is the first one with a pane of that id.
pub proof fn a_pane_is_held_by_the_first_window_that_has_it(windows: Seq<Window>, id: u32)
    ensures
        match window_holding_pane(windows, id) {
            Some(at) => 0 <= at < windows.len() && pane_with_id(windows[at].panes@, id) is Some
                && forall|j: int|
                0 <= j < at ==> pane_with_id((#[trigger] windows[j]).panes@, id) is None,
            None => forall|j: int|
                0 <= j < windows.len() ==> pane_with_id((#[trigger] windows[j]).panes@, id) is None,
        },
    decreases windows.len(),
{
    if windows.len() > 0 {
        let rest = windows.subrange(1, windows.len() as int);
        a_pane_is_held_by_the_first_window_that_has_it(rest, id);
        assert forall|j: int| 1 <= j < windows.len() implies #[trigger] windows[j] == rest[j - 1] by {}
    }
}

/// A place in words is its session, a colon and its window, and for a pane a dot and its
/// index.
pub proof fn a_place_in_words_names_its_parts(name: Seq<char>, window: u32, pane: u32)
    ensures
        window_place_text((name, window)) == name + seq![':'] + text::decimal(window as nat),
        pane_place_text((name, window, pane)) == name + seq![':'] + text::decimal(window as nat)
            + seq!['.'] + text::decimal(pane as nat),
{
    reveal_strlit(":");
    reveal_strlit(".");
    assert(":"@ =~= seq![':']);
    assert("."@ =~= seq!['.']);
}

/// A name and an id belong together exactly where the session of the name has the id.
pub proof fn a_name_goes_with_its_id(store: SessionStore, name: Seq<char>, id: u32)
    ensures
        store.names(name, id) ==> exists|i: int|
            0 <= i < store.sessions@.len() && (#[trigger] store.sessions@[i]).name@ == name
                && store.sessions@[i].id == id,
        store.sessions@.len() > 0 && store.sessions@[0].name@ == name ==> store.names(name, id) == (
        store.sessions@[0].id == id),
        store.sessions@.len() == 0 ==> !store.names(name, id),
{
    a_session_is_found_by_its_name(store.sessions@, name, id);
}

/// A target is its session by name, its window by index and, for a pane, the pane by
/// index.
pub proof fn a_target_is_its_place(window: WindowTarget, pane: PaneTarget)
    ensures
        window@ == (window.session_name@, window.window_index),
        pane@ == (pane.session_name@, pane.window_index, pane.pane_index),
{
}

} // verus!
