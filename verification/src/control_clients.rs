//! The control-mode clients of the server.
//!
//! A client is known by its pid, and for as long as its stream lasts by an id.
//! Events for clients are handed out as deliveries; a client that does not take
//! one is dropped.
use crate::control::ControlClientFlags;
use crate::control_events::ControlServerEvent;
use crate::error;
use crate::error::{ErrorModel, RmuxError};
use crate::scope_support;
use crate::sessions::SessionStore;
use crate::text;
use vstd::prelude::*;

verus! {

/// A control-mode client.
#[derive(Debug, PartialEq, Eq)]
pub struct ActiveControl {
    pub id: u64,
    pub session_name: Option<String>,
    pub session_id: Option<u32>,
    pub last_session: Option<String>,
    pub last_session_id: Option<u32>,
    pub flags: ControlClientFlags,
    pub can_write: bool,
    pub closing: bool,
}

/// A client with its pid.
#[derive(Debug, PartialEq, Eq)]
pub struct ControlEntry {
    pub pid: u32,
    pub client: ActiveControl,
}

/// The control-mode clients, one for each pid.
#[derive(Debug, PartialEq, Eq)]
pub struct ActiveControlState {
    pub next_id: u64,
    pub by_pid: Vec<ControlEntry>,
}

/// An event for a client.
#[derive(Debug, PartialEq, Eq)]
pub struct ControlDelivery {
    pub pid: u32,
    pub event: ControlServerEvent,
}

/// A client whose place was taken, and the event that tells it. It is marked as
/// closing.
#[derive(Debug, PartialEq, Eq)]
pub struct ReplacedControl {
    pub client: ActiveControl,
    pub delivery: ControlDelivery,
}

/// What is done to the sessions once a client took the event of its switch.
#[derive(Debug, PartialEq, Eq)]
pub enum SwitchEffect {
    /// Select the window or pane that the switch asks for.
    ApplySelection,
    /// Note that a client was attached to the session just now.
    TouchAttached { session_name: String },
}

/// A client's switch of session.
#[derive(Debug, PartialEq, Eq)]
pub struct ControlSwitch {
    /// The session that the client leaves.
    pub previous: Option<String>,
    pub delivery: ControlDelivery,
    /// What is done, in order, once the client took the event; nothing of it where the
    /// client did not.
    pub effects: Vec<SwitchEffect>,
}

/// A client that a command means.
#[derive(Debug, Clone, Copy, PartialEq, Eq, Structural)]
pub enum ManagedClient {
    Attach(u32),
    Control(u32),
}

/// A control-mode client for as long as its stream lasts.
#[derive(Debug, Clone, Copy, PartialEq, Eq, Structural)]
pub struct ControlClientIdentity {
    requester_pid: u32,
    control_id: u64,
}

impl ControlClientIdentity {
    /// The pid.
    pub closed spec fn pid(self) -> u32 {
        self.requester_pid
    }

    /// The id.
    pub closed spec fn id(self) -> u64 {
        self.control_id
    }

    /// The identity of these parts.
    pub fn new(requester_pid: u32, control_id: u64) -> (identity: Self)
        ensures
            identity.pid() == requester_pid,
            identity.id() == control_id,
    {
        ControlClientIdentity { requester_pid, control_id }
    }

    /// The pid.
    pub fn requester_pid(self) -> (pid: u32)
        ensures
            pid == self.pid(),
    {
        self.requester_pid
    }

    /// The id.
    pub fn control_id(self) -> (id: u64)
        ensures
            id == self.id(),
    {
        self.control_id
    }
}

/// The identity that a command of `requester_pid` runs for, where `scoped` is
/// the identity of the stream that the current task serves.
pub fn current_control_queue_identity(
    scoped: Option<ControlClientIdentity>,
    requester_pid: u32,
) -> (identity: Option<ControlClientIdentity>)
    ensures
        identity == match scoped {
            Some(identity) => if identity.pid() == requester_pid {
                Some(identity)
            } else {
                None
            },
            None => None,
        },
{
    match scoped {
        Some(identity) => {
            if identity.requester_pid() == requester_pid {
                Some(identity)
            } else {
                None
            }
        },
        None => None,
    }
}

/// The text of a name that may be missing is `name`.
pub open spec fn is_named(text: Option<String>, name: Seq<char>) -> bool {
    text matches Some(text) && text@ == name
}

/// The client is attached to the session named `name`, with the id `id` where
/// one is given.
pub open spec fn serves(client: ActiveControl, name: Seq<char>, id: Option<u32>) -> bool {
    is_named(client.session_name, name) && (id is Some ==> client.session_id == id)
}

/// The client was attached to the session named `name` with the id `id` before.
pub open spec fn last_served(client: ActiveControl, name: Seq<char>, id: u32) -> bool {
    is_named(client.last_session, name) && client.last_session_id == Some(id)
}

/// The place of the client with the pid `pid`.
pub open spec fn entry_at(entries: Seq<ControlEntry>, pid: u32) -> Option<int>
    decreases entries.len(),
{
    if entries.len() == 0 {
        None
    } else if entries[0].pid == pid {
        Some(0)
    } else {
        match entry_at(entries.subrange(1, entries.len() as int), pid) {
            Some(at) => Some(at + 1),
            None => None,
        }
    }
}

/// What `entry_at` answers, said without recursion.
pub proof fn lemma_entry_at(entries: Seq<ControlEntry>, pid: u32)
    ensures
        match entry_at(entries, pid) {
            Some(at) => 0 <= at < entries.len() && entries[at].pid == pid && forall|j: int|
                0 <= j < at ==> (#[trigger] entries[j]).pid != pid,
            None => forall|j: int| 0 <= j < entries.len() ==> (#[trigger] entries[j]).pid != pid,
        },
    decreases entries.len(),
{
    if entries.len() > 0 && entries[0].pid != pid {
        let rest = entries.subrange(1, entries.len() as int);
        lemma_entry_at(rest, pid);
        assert forall|j: int| 1 <= j < entries.len() implies entries[j] == #[trigger] rest[j
            - 1] by {}
        match entry_at(rest, pid) {
            Some(at) => {
                assert forall|j: int| 0 <= j < at + 1 implies (#[trigger] entries[j]).pid != pid by {
                    if j > 0 {
                        assert(entries[j] == rest[j - 1]);
                    }
                }
            },
            None => {
                assert forall|j: int| 0 <= j < entries.len() implies (#[trigger] entries[j]).pid
                    != pid by {
                    if j > 0 {
                        assert(entries[j] == rest[j - 1]);
                    }
                }
            },
        }
    }
}

/// An event for each client of a session, in table order.
pub open spec fn deliveries_for(
    entries: Seq<ControlEntry>,
    name: Seq<char>,
    id: Option<u32>,
    event: ControlServerEvent,
) -> Seq<ControlDelivery>
    decreases entries.len(),
{
    if entries.len() == 0 {
        Seq::empty()
    } else {
        let before = deliveries_for(entries.drop_last(), name, id, event);
        if serves(entries.last().client, name, id) {
            before.push(ControlDelivery { pid: entries.last().pid, event })
        } else {
            before
        }
    }
}

/// The refresh of each client of each of the sessions `names`, one after another.
pub open spec fn refreshes_of(entries: Seq<ControlEntry>, names: Seq<String>) -> Seq<
    ControlDelivery,
>
    decreases names.len(),
{
    if names.len() == 0 {
        Seq::empty()
    } else {
        refreshes_of(entries, names.drop_last()) + deliveries_for(
            entries,
            names.last()@,
            None,
            ControlServerEvent::Refresh,
        )
    }
}

/// How many clients are attached to the session named `name`.
pub open spec fn clients_of(entries: Seq<ControlEntry>, name: Seq<char>) -> nat
    decreases entries.len(),
{
    if entries.len() == 0 {
        0
    } else {
        clients_of(entries.drop_last(), name) + if is_named(
            entries.last().client.session_name,
            name,
        ) {
            1nat
        } else {
            0nat
        }
    }
}

fn name_is(text: &Option<String>, name: &str) -> (is: bool)
    ensures
        is == is_named(*text, name@),
{
    match text {
        Some(text) => text::same_text(text.as_str(), name),
        None => false,
    }
}

fn client_serves(client: &ActiveControl, name: &str, id: Option<u32>) -> (is: bool)
    ensures
        is == serves(*client, name@, id),
{
    name_is(&client.session_name, name) && match id {
        Some(_) => client.session_id == id,
        None => true,
    }
}

fn copy_name(name: &Option<String>) -> (copy: Option<String>)
    ensures
        copy == name,
{
    match name {
        Some(name) => Some(name.clone()),
        None => None,
    }
}

/// A client's session by name and id, where it has both.
pub open spec fn session_identity(client: ActiveControl) -> Option<(Seq<char>, u32)> {
    match (client.session_name, client.session_id) {
        (Some(name), Some(id)) => Some((name@, id)),
        _ => None,
    }
}

/// A name and an id as a value.
pub open spec fn identity_model(identity: Option<(String, u32)>) -> Option<(Seq<char>, u32)> {
    match identity {
        Some((name, id)) => Some((name@, id)),
        None => None,
    }
}

fn copy_session_identity(client: &ActiveControl) -> (identity: Option<(String, u32)>)
    ensures
        identity_model(identity) == session_identity(*client),
{
    match (&client.session_name, client.session_id) {
        (Some(name), Some(id)) => Some((name.clone(), id)),
        _ => None,
    }
}

/// The entry after its session was renamed.
pub open spec fn renamed_entry(
    entry: ControlEntry,
    name: Seq<char>,
    id: u32,
    new_name: String,
) -> ControlEntry {
    ControlEntry {
        pid: entry.pid,
        client: ActiveControl {
            session_name: if serves(entry.client, name, Some(id)) {
                Some(new_name)
            } else {
                entry.client.session_name
            },
            last_session: if last_served(entry.client, name, id) {
                Some(new_name)
            } else {
                entry.client.last_session
            },
            ..entry.client
        },
    }
}

/// The entry after its session was closed.
pub open spec fn exited_entry(entry: ControlEntry, name: Seq<char>, id: u32) -> ControlEntry {
    let forgotten = last_served(entry.client, name, id);
    ControlEntry {
        pid: entry.pid,
        client: ActiveControl {
            last_session: if forgotten {
                None
            } else {
                entry.client.last_session
            },
            last_session_id: if forgotten {
                None
            } else {
                entry.client.last_session_id
            },
            closing: entry.client.closing || serves(entry.client, name, Some(id)),
            ..entry.client
        },
    }
}

/// The client after it switched to another session. The session before it is
/// remembered where it was another one.
pub open spec fn switched_client(
    client: ActiveControl,
    next_name: Option<String>,
    next_id: Option<u32>,
) -> ActiveControl {
    let leaves = client.session_name is Some && client.session_id is Some && next_name is Some
        && next_id is Some && (client.session_name->0@ != next_name->0@ || client.session_id
        != next_id);
    ActiveControl {
        session_name: next_name,
        session_id: next_id,
        last_session: if leaves {
            client.session_name
        } else {
            client.last_session
        },
        last_session_id: if leaves {
            client.session_id
        } else {
            client.last_session_id
        },
        ..client
    }
}

/// Switches a client to another session, and hands out the name of the one that
/// it leaves and the event that tells the client.
pub fn update_control_session(
    active: &mut ActiveControl,
    next_session_name: Option<String>,
    next_session_id: Option<u32>,
) -> (switched: (Option<String>, ControlServerEvent))
    ensures
        *final(active) == switched_client(*old(active), next_session_name, next_session_id),
        switched.0 == old(active).session_name,
        switched.1 == ControlServerEvent::SessionChanged(next_session_name),
{
    let previous = copy_name(&active.session_name);
    let leaves = match (&previous, active.session_id, &next_session_name, next_session_id) {
        (Some(from), Some(from_id), Some(to), Some(to_id)) => {
            !text::same_text(from.as_str(), to.as_str()) || from_id != to_id
        },
        _ => false,
    };
    if leaves {
        active.last_session = copy_name(&previous);
        active.last_session_id = active.session_id;
    }
    active.session_name = copy_name(&next_session_name);
    active.session_id = next_session_id;
    (previous, ControlServerEvent::SessionChanged(next_session_name))
}

/// Why a command of a control-mode client is refused: the client is gone or
/// another one has its pid, it is closing, or its session is not what it was.
pub open spec fn queue_identity_refusal(
    store: SessionStore,
    entries: Seq<ControlEntry>,
    pid: u32,
    expected_id: u64,
) -> Option<ErrorModel> {
    match entry_at(entries, pid) {
        None => Some(scope_support::client_required("control command"@)),
        Some(at) => {
            let client = entries[at].client;
            if client.id != expected_id {
                Some(scope_support::client_required("control command"@))
            } else if client.closing {
                Some(ErrorModel::Server("control client is closing"@))
            } else {
                match (client.session_name, client.session_id) {
                    (None, None) => None,
                    (Some(name), Some(id)) => if store.names(name@, id) {
                        None
                    } else {
                        Some(ErrorModel::SessionNotFound(name@))
                    },
                    (Some(name), None) => Some(ErrorModel::SessionNotFound(name@)),
                    (None, Some(_)) => Some(
                        ErrorModel::Server("control client has an invalid session identity"@),
                    ),
                }
            }
        },
    }
}

/// What `set_control_session_with_expected_identity` is asked for.
#[derive(Debug, PartialEq, Eq)]
pub struct ControlSessionSwitch {
    pub next_session_name: Option<String>,
    pub expected_session_id: Option<u32>,
    pub expected_control_id: Option<u64>,
    /// Whether a window or pane that is selected with the switch exists, where
    /// one is.
    pub selection: Option<Result<(), RmuxError>>,
}

/// What a switch does to the sessions once the client took its event: a selection
/// first, and a session is touched where the request names its client.
pub open spec fn switch_effects(request: ControlSessionSwitch) -> Seq<SwitchEffect> {
    let selected = if request.selection is Some {
        seq![SwitchEffect::ApplySelection]
    } else {
        Seq::empty()
    };
    match (request.expected_control_id, request.next_session_name) {
        (Some(_), Some(session_name)) => selected.push(
            SwitchEffect::TouchAttached { session_name },
        ),
        _ => selected,
    }
}

/// A switch that nothing but its selection could refuse names a session, where it
/// selects something or names its client.
pub open spec fn switch_names_its_session(
    store: SessionStore,
    entries: Seq<ControlEntry>,
    pid: u32,
    queued: Option<u64>,
    request: ControlSessionSwitch,
) -> bool {
    let bare = ControlSessionSwitch { selection: None, ..request };
    switch_refusal(store, entries, pid, queued, bare) is None && (request.expected_control_id is Some
        || request.selection is Some) ==> request.next_session_name is Some
}

/// The command that a switch of session is refused for.
pub open spec fn switch_command(expected_control_id: Option<u64>) -> Seq<char> {
    if expected_control_id is Some {
        "switch-client"@
    } else {
        "control session"@
    }
}

/// The two ids are given and differ.
pub open spec fn ids_conflict(explicit: Option<u64>, queued: Option<u64>) -> bool {
    explicit is Some && queued is Some && explicit != queued
}

/// The id that a client must have: the explicit one, else that of the queue.
pub open spec fn demanded_id(explicit: Option<u64>, queued: Option<u64>) -> Option<u64> {
    if explicit is Some {
        explicit
    } else {
        queued
    }
}

/// The id of the session to switch to.
pub open spec fn next_session_id(store: SessionStore, name: Option<String>) -> Option<u32> {
    match name {
        Some(name) => match store.session_spec(name@) {
            Some(session) => Some(session.id),
            None => None,
        },
        None => None,
    }
}

/// Why a switch of session is refused, before anything is changed.
pub open spec fn switch_refusal(
    store: SessionStore,
    entries: Seq<ControlEntry>,
    pid: u32,
    queued: Option<u64>,
    request: ControlSessionSwitch,
) -> Option<ErrorModel> {
    let required = scope_support::client_required(switch_command(request.expected_control_id));
    let next_id = next_session_id(store, request.next_session_name);
    let demanded = demanded_id(request.expected_control_id, queued);
    if ids_conflict(request.expected_control_id, queued) {
        Some(required)
    } else if request.next_session_name is Some && (next_id is None || (
    request.expected_session_id is Some && next_id != request.expected_session_id)) {
        Some(ErrorModel::SessionNotFound(request.next_session_name->0@))
    } else {
        match entry_at(entries, pid) {
            None => Some(required),
            Some(at) => if (demanded is Some && demanded != Some(entries[at].client.id))
                || entries[at].client.closing {
                Some(required)
            } else {
                match request.selection {
                    Some(Err(error)) => Some(error@),
                    _ => None,
                }
            },
        }
    }
}

impl ActiveControlState {
    /// Every pid has one client, and ids come from `next_id`.
    pub open spec fn wf(&self) -> bool {
        &&& forall|i: int, j: int|
            0 <= i < j < self.by_pid@.len() ==> self.by_pid@[i].pid != self.by_pid@[j].pid
        &&& forall|i: int|
            0 <= i < self.by_pid@.len() ==> (#[trigger] self.by_pid@[i]).client.id < self.next_id
    }

    /// The client with the pid `pid`.
    pub open spec fn client(&self, pid: u32) -> Option<ActiveControl> {
        match entry_at(self.by_pid@, pid) {
            Some(at) => Some(self.by_pid@[at].client),
            None => None,
        }
    }

    /// No clients.
    pub fn new() -> (state: Self)
        ensures
            state.wf(),
            state.next_id == 0,
            state.by_pid@.len() == 0,
    {
        ActiveControlState { next_id: 0, by_pid: Vec::new() }
    }

    /// The place of the client with the pid `pid`.
    pub fn find(&self, pid: u32) -> (at: Option<usize>)
        ensures
            match at {
                Some(at) => entry_at(self.by_pid@, pid) == Some(at as int) && at
                    < self.by_pid@.len() && self.by_pid@[at as int].pid == pid,
                None => entry_at(self.by_pid@, pid) is None,
            },
    {
        let ghost all = self.by_pid@;
        let mut i: usize = 0;
        assert(all.subrange(0, all.len() as int) =~= all);
        while i < self.by_pid.len()
            invariant
                i <= all.len(),
                all == self.by_pid@,
                entry_at(all, pid) == match entry_at(
                    all.subrange(i as int, all.len() as int),
                    pid,
                ) {
                    Some(at) => Some(at + i),
                    None => None,
                },
            decreases self.by_pid.len() - i,
        {
            let ghost rest = all.subrange(i as int, all.len() as int);
            assert(rest[0] == all[i as int]);
            if self.by_pid[i].pid == pid {
                return Some(i);
            }
            assert(rest.subrange(1, rest.len() as int) =~= all.subrange(i + 1, all.len() as int));
            i = i + 1;
        }
        None
    }

    /// Registers a client under a new id. A client that had its pid is marked as
    /// closing, and told to exit.
    pub fn register_control_with_access(&mut self, pid: u32, can_write: bool) -> (registered: (
        u64,
        Option<ReplacedControl>,
    ))
        requires
            old(self).wf(),
            old(self).next_id < u64::MAX,
        ensures
            final(self).wf(),
            registered.0 == old(self).next_id,
            final(self).next_id == old(self).next_id + 1,
            final(self).client(pid) == Some(
                ActiveControl {
                    id: registered.0,
                    session_name: None,
                    session_id: None,
                    last_session: None,
                    last_session_id: None,
                    flags: ControlClientFlags {
                        pause_after_millis: None,
                        no_output: false,
                        wait_exit: false,
                    },
                    can_write,
                    closing: false,
                },
            ),
            forall|other: u32|
                other != pid ==> #[trigger] final(self).client(other) == old(self).client(other),
            registered.1 == match old(self).client(pid) {
                Some(previous) => Some(
                    ReplacedControl {
                        client: ActiveControl { closing: true, ..previous },
                        delivery: ControlDelivery { pid, event: ControlServerEvent::Exit(None) },
                    },
                ),
                None => None,
            },
    {
        let id: u64 = self.next_id;
        self.next_id = self.next_id + 1;
        let client = ActiveControl {
            id,
            session_name: None,
            session_id: None,
            last_session: None,
            last_session_id: None,
            flags: ControlClientFlags {
                pause_after_millis: None,
                no_output: false,
                wait_exit: false,
            },
            can_write,
            closing: false,
        };
        let entry = ControlEntry { pid, client };
        match self.find(pid) {
            Some(at) => {
                let mut replaced = entry;
                std::mem::swap(&mut self.by_pid[at], &mut replaced);
                proof {
                    assert(self.by_pid@ =~= old(self).by_pid@.update(at as int, entry));
                    assert(replaced == old(self).by_pid@[at as int]);
                    assert forall|other: u32| #[trigger] self.client(other) == if other == pid {
                        Some(client)
                    } else {
                        old(self).client(other)
                    } by {
                        lemma_entry_at(self.by_pid@, other);
                        lemma_entry_at(old(self).by_pid@, other);
                        lemma_updated_entry(old(self).by_pid@, at as int, entry, other);
                    }
                }
                let mut client = replaced.client;
                client.closing = true;
                let delivery = ControlDelivery { pid, event: ControlServerEvent::Exit(None) };
                (id, Some(ReplacedControl { client, delivery }))
            },
            None => {
                self.by_pid.push(entry);
                proof {
                    assert(self.by_pid@ =~= old(self).by_pid@.push(entry));
                    lemma_entry_at(old(self).by_pid@, pid);
                    assert forall|other: u32| #[trigger] self.client(other) == if other == pid {
                        Some(client)
                    } else {
                        old(self).client(other)
                    } by {
                        lemma_entry_at(old(self).by_pid@, other);
                        lemma_pushed_entry(old(self).by_pid@, entry, other);
                    }
                }
                (id, None)
            },
        }
    }

    /// Takes the client out of the table.
    fn remove_at(&mut self, at: usize) -> (entry: ControlEntry)
        requires
            old(self).wf(),
            at < old(self).by_pid@.len(),
        ensures
            final(self).wf(),
            entry == old(self).by_pid@[at as int],
            final(self).by_pid@ == old(self).by_pid@.remove(at as int),
            final(self).next_id == old(self).next_id,
    {
        let entry = self.by_pid.remove(at);
        assert forall|i: int, j: int| 0 <= i < j < self.by_pid@.len() implies self.by_pid@[i].pid
            != self.by_pid@[j].pid by {
            let a = if i < at {
                i
            } else {
                i + 1
            };
            let b = if j < at {
                j
            } else {
                j + 1
            };
            assert(self.by_pid@[i] == old(self).by_pid@[a]);
            assert(self.by_pid@[j] == old(self).by_pid@[b]);
        }
        assert forall|i: int| 0 <= i < self.by_pid@.len() implies (
        #[trigger] self.by_pid@[i]).client.id < self.next_id by {
            let a = if i < at {
                i
            } else {
                i + 1
            };
            assert(self.by_pid@[i] == old(self).by_pid@[a]);
        }
        entry
    }

    /// Takes the client of a stream that ended out of the table, and hands out
    /// the session that it leaves. Another client with its pid stays.
    pub fn finish_control(&mut self, pid: u32, control_id: u64) -> (left: Option<(String, u32)>)
        requires
            old(self).wf(),
        ensures
            final(self).wf(),
            final(self).next_id == old(self).next_id,
            match entry_at(old(self).by_pid@, pid) {
                Some(at) => if old(self).by_pid@[at].client.id == control_id {
                    &&& final(self).by_pid@ == old(self).by_pid@.remove(at)
                    &&& identity_model(left) == session_identity(old(self).by_pid@[at].client)
                } else {
                    *final(self) == *old(self) && left is None
                },
                None => *final(self) == *old(self) && left is None,
            },
    {
        match self.find(pid) {
            Some(at) => {
                if self.by_pid[at].client.id == control_id {
                    let entry = self.remove_at(at);
                    copy_session_identity(&entry.client)
                } else {
                    None
                }
            },
            None => None,
        }
    }

    /// Drops a client that did not take an event.
    pub fn drop_undelivered(&mut self, pid: u32)
        requires
            old(self).wf(),
        ensures
            final(self).wf(),
            final(self).next_id == old(self).next_id,
            match entry_at(old(self).by_pid@, pid) {
                Some(at) => final(self).by_pid@ == old(self).by_pid@.remove(at),
                None => *final(self) == *old(self),
            },
    {
        match self.find(pid) {
            Some(at) => {
                let _ = self.remove_at(at);
            },
            None => {},
        }
    }

    /// How many clients are attached to the session named `name`.
    pub fn attached_count(&self, name: &str) -> (count: usize)
        ensures
            count == clients_of(self.by_pid@, name@),
    {
        let mut count: usize = 0;
        let mut i: usize = 0;
        assert(self.by_pid@.take(0) =~= Seq::<ControlEntry>::empty());
        while i < self.by_pid.len()
            invariant
                i <= self.by_pid@.len(),
                count == clients_of(self.by_pid@.take(i as int), name@),
                count <= i,
            decreases self.by_pid.len() - i,
        {
            proof {
                let next = self.by_pid@.take(i + 1);
                assert(next.drop_last() =~= self.by_pid@.take(i as int));
                assert(next.last() == self.by_pid@[i as int]);
            }
            if name_is(&self.by_pid[i].client.session_name, name) {
                count = count + 1;
            }
            i = i + 1;
        }
        assert(self.by_pid@.take(i as int) =~= self.by_pid@);
        count
    }

    /// Follows the rename of a session, in the sessions that clients are attached
    /// to and in those that they were before, and tells the attached clients.
    /// A session of that name with another id is not meant.
    pub fn rename_control_session(&mut self, name: &str, id: u32, new_name: &str) -> (deliveries:
        Vec<ControlDelivery>)
        requires
            old(self).wf(),
        ensures
            final(self).wf(),
            final(self).next_id == old(self).next_id,
            final(self).by_pid@.len() == old(self).by_pid@.len(),
            exists|renamed: String| #[trigger]
                renamed@ == new_name@ && (forall|i: int|
                    0 <= i < final(self).by_pid@.len() ==> #[trigger] final(self).by_pid@[i]
                        == renamed_entry(old(self).by_pid@[i], name@, id, renamed)) && deliveries@
                    == deliveries_for(
                    old(self).by_pid@,
                    name@,
                    Some(id),
                    ControlServerEvent::SessionChanged(Some(renamed)),
                ),
    {
        let renamed: String = new_name.to_owned();
        let mut deliveries: Vec<ControlDelivery> = Vec::new();
        let mut i: usize = 0;
        let ghost before = self.by_pid@;
        let ghost event = ControlServerEvent::SessionChanged(Some(renamed));
        assert(before.take(0) =~= Seq::<ControlEntry>::empty());
        while i < self.by_pid.len()
            invariant
                i <= self.by_pid@.len(),
                self.by_pid@.len() == before.len(),
                self.next_id == old(self).next_id,
                event == ControlServerEvent::SessionChanged(Some(renamed)),
                forall|k: int|
                    0 <= k < i ==> #[trigger] self.by_pid@[k] == renamed_entry(
                        before[k],
                        name@,
                        id,
                        renamed,
                    ),
                forall|k: int| i <= k < before.len() ==> #[trigger] self.by_pid@[k] == before[k],
                deliveries@ == deliveries_for(before.take(i as int), name@, Some(id), event),
            decreases self.by_pid.len() - i,
        {
            proof {
                let next = before.take(i + 1);
                assert(next.drop_last() =~= before.take(i as int));
                assert(next.last() == before[i as int]);
            }
            let attached = client_serves(&self.by_pid[i].client, name, Some(id));
            let was_attached = name_is(&self.by_pid[i].client.last_session, name)
                && self.by_pid[i].client.last_session_id == Some(id);
            let pid: u32 = self.by_pid[i].pid;
            if attached {
                self.by_pid[i].client.session_name = Some(renamed.clone());
                deliveries.push(
                    ControlDelivery {
                        pid,
                        event: ControlServerEvent::SessionChanged(Some(renamed.clone())),
                    },
                );
            }
            if was_attached {
                self.by_pid[i].client.last_session = Some(renamed.clone());
            }
            i = i + 1;
        }
        proof {
            assert(before.take(i as int) =~= before);
            assert(renamed@ == new_name@);
            assert forall|a: int, b: int| 0 <= a < b < self.by_pid@.len() implies
                self.by_pid@[a].pid != self.by_pid@[b].pid by {
                assert(self.by_pid@[a].pid == before[a].pid);
                assert(self.by_pid@[b].pid == before[b].pid);
            }
        }
        deliveries
    }

    /// The session that a command of `requester_pid` means without saying so:
    /// that of the client itself, or of the only client there is; none of a
    /// client that is closing.
    pub fn current_session_candidate(&self, requester_pid: u32) -> (candidate: Option<
        (String, u32),
    >)
        ensures
            identity_model(candidate) == match self.client(requester_pid) {
                Some(client) => if client.closing {
                    None
                } else {
                    session_identity(client)
                },
                None => if self.by_pid@.len() == 1 && !self.by_pid@[0].client.closing {
                    session_identity(self.by_pid@[0].client)
                } else {
                    None
                },
            },
    {
        match self.find(requester_pid) {
            Some(at) => {
                if self.by_pid[at].client.closing {
                    None
                } else {
                    copy_session_identity(&self.by_pid[at].client)
                }
            },
            None => {
                if self.by_pid.len() == 1 && !self.by_pid[0].client.closing {
                    copy_session_identity(&self.by_pid[0].client)
                } else {
                    None
                }
            },
        }
    }

    /// Refuses a command of a control-mode client that is not what it was.
    pub fn validate_control_queue_identity_locked(
        &self,
        store: &SessionStore,
        requester_pid: u32,
        expected_control_id: u64,
    ) -> (result: Result<(), RmuxError>)
        ensures
            scope_support::refusal_of(result) == queue_identity_refusal(
                *store,
                self.by_pid@,
                requester_pid,
                expected_control_id,
            ),
    {
        match self.find(requester_pid) {
            None => Err(scope_support::attached_client_required("control command")),
            Some(at) => {
                let active = &self.by_pid[at].client;
                if active.id != expected_control_id {
                    return Err(scope_support::attached_client_required("control command"));
                }
                if active.closing {
                    return Err(error::server_error("control client is closing"));
                }
                match (&active.session_name, active.session_id) {
                    (None, None) => Ok(()),
                    (Some(name), Some(id)) => {
                        if store.session_has_id(name.as_str(), id) {
                            Ok(())
                        } else {
                            Err(RmuxError::SessionNotFound(name.clone()))
                        }
                    },
                    (Some(name), None) => Err(RmuxError::SessionNotFound(name.clone())),
                    (None, Some(_)) => Err(
                        error::server_error("control client has an invalid session identity"),
                    ),
                }
            },
        }
    }

    /// The id of a client that may queue commands.
    pub fn control_queue_client_id(&self, requester_pid: u32) -> (result: Result<u64, RmuxError>)
        ensures
            match (self.client(requester_pid), result) {
                (Some(client), Ok(id)) => !client.closing && id == client.id,
                (Some(client), Err(error)) => client.closing && error@ == ErrorModel::Server(
                    "control client is closing"@,
                ),
                (None, Err(error)) => error@ == scope_support::client_required("control command"@),
                (None, Ok(_)) => false,
            },
    {
        match self.find(requester_pid) {
            None => Err(scope_support::attached_client_required("control command")),
            Some(at) => {
                if self.by_pid[at].client.closing {
                    Err(error::server_error("control client is closing"))
                } else {
                    Ok(self.by_pid[at].client.id)
                }
            },
        }
    }

    /// The client is there, and the one that the queue serves where it serves
    /// one, which must not be closing.
    pub open spec fn serves_queue(&self, pid: u32, queued: Option<u64>) -> bool {
        self.client(pid) matches Some(client) && (queued matches Some(id) ==> client.id == id
            && !client.closing)
    }

    fn queue_entry(&self, pid: u32, queued: Option<u64>) -> (at: Option<usize>)
        ensures
            match at {
                Some(at) => self.serves_queue(pid, queued) && at < self.by_pid@.len()
                    && self.client(pid) == Some(self.by_pid@[at as int].client),
                None => !self.serves_queue(pid, queued),
            },
    {
        match self.find(pid) {
            None => None,
            Some(at) => match queued {
                Some(id) => {
                    if self.by_pid[at].client.id == id && !self.by_pid[at].client.closing {
                        Some(at)
                    } else {
                        None
                    }
                },
                None => Some(at),
            },
        }
    }

    /// The name of the session that the client is attached to. Where the task
    /// serves a queue, `queued` is the id of its client, and only that client
    /// is meant.
    pub fn control_session_name(&self, requester_pid: u32, queued: Option<u64>) -> (name: Option<
        String,
    >)
        ensures
            name == if self.serves_queue(requester_pid, queued) {
                self.client(requester_pid)->0.session_name
            } else {
                None
            },
    {
        match self.queue_entry(requester_pid, queued) {
            Some(at) => copy_name(&self.by_pid[at].client.session_name),
            None => None,
        }
    }

    /// What the client asked for.
    pub fn control_client_flags(&self, requester_pid: u32, queued: Option<u64>) -> (flags: Option<
        ControlClientFlags,
    >)
        ensures
            flags == if self.serves_queue(requester_pid, queued) {
                Some(self.client(requester_pid)->0.flags)
            } else {
                None
            },
    {
        match self.queue_entry(requester_pid, queued) {
            Some(at) => Some(self.by_pid[at].client.flags),
            None => None,
        }
    }

    /// Whether the pid is that of a control-mode client that is not closing, and
    /// the one that the queue serves where it serves one.
    pub fn is_control_client(&self, requester_pid: u32, queued: Option<u64>) -> (is: bool)
        ensures
            is == (self.client(requester_pid) matches Some(client) && !client.closing && (
            queued matches Some(id) ==> client.id == id)),
    {
        match self.find(requester_pid) {
            None => false,
            Some(at) => {
                let id_matches = match queued {
                    Some(id) => self.by_pid[at].client.id == id,
                    None => true,
                };
                id_matches && !self.by_pid[at].client.closing
            },
        }
    }

    /// What the client of a queue may do: nothing where its commands are refused,
    /// else whether it may write.
    pub open spec fn queue_access(
        &self,
        store: SessionStore,
        identity: ControlClientIdentity,
    ) -> Option<bool> {
        if queue_identity_refusal(store, self.by_pid@, identity.pid(), identity.id()) is None {
            Some(self.client(identity.pid())->0.can_write)
        } else {
            None
        }
    }

    /// What the client of a queue may do: nothing where its commands are refused,
    /// else whether it may write.
    pub fn control_queue_access(
        &self,
        store: &SessionStore,
        identity: ControlClientIdentity,
    ) -> (access: Option<bool>)
        ensures
            access == self.queue_access(*store, identity),
    {
        match self.validate_control_queue_identity_locked(
            store,
            identity.requester_pid(),
            identity.control_id(),
        ) {
            Err(_) => None,
            Ok(()) => match self.find(identity.requester_pid()) {
                Some(at) => Some(self.by_pid[at].client.can_write),
                None => None,
            },
        }
    }

    /// Whether commands of the client may change anything.
    pub fn control_queue_can_write(
        &self,
        store: &SessionStore,
        identity: ControlClientIdentity,
    ) -> (can: bool)
        ensures
            can == (self.queue_access(*store, identity) == Some(true)),
    {
        match self.control_queue_access(store, identity) {
            Some(can_write) => can_write,
            None => false,
        }
    }

    /// Switches a client to another session, or to none. `queued` is the id of
    /// the client that the queue serves, where the task serves one. The answer
    /// is the session that it leaves, the event for it and what follows once the
    /// event is taken; where it is not, see `switch_undelivered`.
    pub fn set_control_session_with_expected_identity(
        &mut self,
        store: &SessionStore,
        requester_pid: u32,
        queued: Option<u64>,
        request: ControlSessionSwitch,
    ) -> (result: Result<ControlSwitch, RmuxError>)
        requires
            old(self).wf(),
            switch_names_its_session(
                *store,
                old(self).by_pid@,
                requester_pid,
                queued,
                request,
            ),
        ensures
            final(self).wf(),
            final(self).next_id == old(self).next_id,
            scope_support::refusal_of(result) == switch_refusal(
                *store,
                old(self).by_pid@,
                requester_pid,
                queued,
                request,
            ),
            match result {
                Err(_) => *final(self) == *old(self),
                Ok(switch) => {
                    let at = entry_at(old(self).by_pid@, requester_pid)->0;
                    let client = old(self).by_pid@[at].client;
                    &&& entry_at(old(self).by_pid@, requester_pid) is Some
                    &&& switch.previous == client.session_name
                    &&& switch.effects@ == switch_effects(request)
                    &&& switch.delivery == (ControlDelivery {
                        pid: requester_pid,
                        event: ControlServerEvent::SessionChanged(request.next_session_name),
                    })
                    &&& final(self).by_pid@ == old(self).by_pid@.update(
                        at,
                        ControlEntry {
                            pid: requester_pid,
                            client: switched_client(
                                client,
                                request.next_session_name,
                                next_session_id(*store, request.next_session_name),
                            ),
                        },
                    )
                },
            },
    {
        let command_name = if request.expected_control_id.is_some() {
            "switch-client"
        } else {
            "control session"
        };
        let conflict = match (request.expected_control_id, queued) {
            (Some(explicit), Some(queued)) => explicit != queued,
            _ => false,
        };
        if conflict {
            return Err(scope_support::attached_client_required(command_name));
        }
        let demanded = if request.expected_control_id.is_some() {
            request.expected_control_id
        } else {
            queued
        };
        let next_id: Option<u32> = match &request.next_session_name {
            Some(name) => match store.session(name.as_str()) {
                None => {
                    return Err(RmuxError::SessionNotFound(name.clone()));
                },
                Some(session) => {
                    if let Some(expected) = request.expected_session_id {
                        if expected != session.id {
                            return Err(RmuxError::SessionNotFound(name.clone()));
                        }
                    }
                    Some(session.id)
                },
            },
            None => None,
        };
        let at: usize = match self.find(requester_pid) {
            None => {
                return Err(scope_support::attached_client_required(command_name));
            },
            Some(at) => at,
        };
        if let Some(demanded) = demanded {
            if self.by_pid[at].client.id != demanded {
                return Err(scope_support::attached_client_required(command_name));
            }
        }
        if self.by_pid[at].client.closing {
            return Err(scope_support::attached_client_required(command_name));
        }
        let mut effects: Vec<SwitchEffect> = Vec::new();
        match request.selection {
            Some(Err(error)) => {
                return Err(error);
            },
            Some(Ok(())) => effects.push(SwitchEffect::ApplySelection),
            None => {},
        }
        if request.expected_control_id.is_some() {
            if let Some(session_name) = copy_name(&request.next_session_name) {
                effects.push(SwitchEffect::TouchAttached { session_name });
            }
        }
        assert(effects@ =~= switch_effects(request));
        let ghost before = self.by_pid@;
        let (previous, event) = update_control_session(
            &mut self.by_pid[at].client,
            request.next_session_name,
            next_id,
        );
        assert(self.by_pid@ =~= before.update(
            at as int,
            ControlEntry {
                pid: requester_pid,
                client: switched_client(
                    before[at as int].client,
                    request.next_session_name,
                    next_id,
                ),
            },
        ));
        let delivery = ControlDelivery { pid: requester_pid, event };
        Ok(ControlSwitch { previous, delivery, effects })
    }

    /// Drops a client that did not take the event of its switch, and refuses the
    /// switch.
    pub fn switch_undelivered(&mut self, pid: u32, for_switch_client: bool) -> (error: RmuxError)
        requires
            old(self).wf(),
        ensures
            final(self).wf(),
            final(self).next_id == old(self).next_id,
            error@ == scope_support::client_required(
                if for_switch_client {
                    "switch-client"@
                } else {
                    "control session"@
                },
            ),
            match entry_at(old(self).by_pid@, pid) {
                Some(at) => final(self).by_pid@ == old(self).by_pid@.remove(at),
                None => *final(self) == *old(self),
            },
    {
        self.drop_undelivered(pid);
        if for_switch_client {
            scope_support::attached_client_required("switch-client")
        } else {
            scope_support::attached_client_required("control session")
        }
    }

    /// Attaches the client of a queue to a session; `None` where it is attached
    /// to it already. The session is touched once the client took the event.
    pub fn attach_control_session_for_queue(
        &mut self,
        store: &SessionStore,
        identity: ControlClientIdentity,
        session_name: &str,
        expected_session_id: Option<u32>,
    ) -> (result: Result<Option<ControlSwitch>, RmuxError>)
        requires
            old(self).wf(),
        ensures
            final(self).wf(),
            final(self).next_id == old(self).next_id,
            scope_support::refusal_of(result) == attach_refusal(
                *store,
                old(self).by_pid@,
                identity,
                session_name@,
                expected_session_id,
            ),
            match result {
                Err(_) => *final(self) == *old(self),
                Ok(None) => {
                    &&& *final(self) == *old(self)
                    &&& old(self).client(identity.pid()) matches Some(client)
                    &&& serves(client, session_name@, Some(store.session_spec(session_name@)->0.id))
                },
                Ok(Some(switch)) => {
                    let id = store.session_spec(session_name@)->0.id;
                    let at = entry_at(old(self).by_pid@, identity.pid())->0;
                    let client = old(self).by_pid@[at].client;
                    &&& entry_at(old(self).by_pid@, identity.pid()) is Some
                    &&& !serves(client, session_name@, Some(id))
                    &&& switch.previous == client.session_name
                    &&& switch.delivery.pid == identity.pid()
                    &&& switch.delivery.event matches ControlServerEvent::SessionChanged(
                        Some(name),
                    )
                    &&& name@ == session_name@
                    &&& switch.effects@ == seq![
                        SwitchEffect::TouchAttached { session_name: name },
                    ]
                    &&& final(self).by_pid@ == old(self).by_pid@.update(
                        at,
                        ControlEntry {
                            pid: identity.pid(),
                            client: switched_client(client, Some(name), Some(id)),
                        },
                    )
                },
            },
    {
        match self.validate_control_queue_identity_locked(
            store,
            identity.requester_pid(),
            identity.control_id(),
        ) {
            Err(error) => {
                return Err(error);
            },
            Ok(()) => {},
        }
        let id: u32 = match store.session(session_name) {
            None => {
                return Err(RmuxError::SessionNotFound(session_name.to_owned()));
            },
            Some(session) => session.id,
        };
        if let Some(expected) = expected_session_id {
            if expected != id {
                return Err(RmuxError::SessionNotFound(session_name.to_owned()));
            }
        }
        match self.find(identity.requester_pid()) {
            None => Err(scope_support::attached_client_required("control command")),
            Some(at) => {
                if client_serves(&self.by_pid[at].client, session_name, Some(id)) {
                    return Ok(None);
                }
                let name: String = session_name.to_owned();
                let ghost before = self.by_pid@;
                let mut effects: Vec<SwitchEffect> = Vec::new();
                effects.push(SwitchEffect::TouchAttached { session_name: name.clone() });
                let (previous, event) = update_control_session(
                    &mut self.by_pid[at].client,
                    Some(name),
                    Some(id),
                );
                assert(self.by_pid@ =~= before.update(
                    at as int,
                    ControlEntry {
                        pid: identity.pid(),
                        client: switched_client(before[at as int].client, Some(name), Some(id)),
                    },
                ));
                let delivery = ControlDelivery { pid: identity.requester_pid(), event };
                Ok(Some(ControlSwitch { previous, delivery, effects }))
            },
        }
    }

    /// The refresh of each client of the session named `name`.
    pub fn refresh_control_session(&self, name: &str) -> (deliveries: Vec<ControlDelivery>)
        ensures
            deliveries@ == deliveries_for(
                self.by_pid@,
                name@,
                None,
                ControlServerEvent::Refresh,
            ),
    {
        let mut deliveries: Vec<ControlDelivery> = Vec::new();
        let mut i: usize = 0;
        assert(self.by_pid@.take(0) =~= Seq::<ControlEntry>::empty());
        while i < self.by_pid.len()
            invariant
                i <= self.by_pid@.len(),
                deliveries@ == deliveries_for(
                    self.by_pid@.take(i as int),
                    name@,
                    None,
                    ControlServerEvent::Refresh,
                ),
            decreases self.by_pid.len() - i,
        {
            proof {
                let next = self.by_pid@.take(i + 1);
                assert(next.drop_last() =~= self.by_pid@.take(i as int));
                assert(next.last() == self.by_pid@[i as int]);
            }
            if client_serves(&self.by_pid[i].client, name, None) {
                deliveries.push(
                    ControlDelivery { pid: self.by_pid[i].pid, event: ControlServerEvent::Refresh },
                );
            }
            i = i + 1;
        }
        assert(self.by_pid@.take(i as int) =~= self.by_pid@);
        deliveries
    }

    /// The sessions whose clients are refreshed when all are: those of clients
    /// that are not closing, once for each client.
    pub fn refreshable_sessions(&self) -> (names: Vec<String>)
        ensures
            names@ == open_sessions(self.by_pid@),
    {
        let mut names: Vec<String> = Vec::new();
        let mut i: usize = 0;
        assert(self.by_pid@.take(0) =~= Seq::<ControlEntry>::empty());
        while i < self.by_pid.len()
            invariant
                i <= self.by_pid@.len(),
                names@ == open_sessions(self.by_pid@.take(i as int)),
            decreases self.by_pid.len() - i,
        {
            proof {
                let next = self.by_pid@.take(i + 1);
                assert(next.drop_last() =~= self.by_pid@.take(i as int));
                assert(next.last() == self.by_pid@[i as int]);
            }
            if !self.by_pid[i].client.closing {
                if let Some(name) = &self.by_pid[i].client.session_name {
                    names.push(name.clone());
                }
            }
            i = i + 1;
        }
        assert(self.by_pid@.take(i as int) =~= self.by_pid@);
        names
    }

    /// The refresh of all clients: of those of each session in turn, once for each
    /// client that is not closing.
    pub fn refresh_all_control_sessions(&self) -> (deliveries: Vec<ControlDelivery>)
        ensures
            deliveries@ == refreshes_of(self.by_pid@, open_sessions(self.by_pid@)),
    {
        let names = self.refreshable_sessions();
        let mut deliveries: Vec<ControlDelivery> = Vec::new();
        let mut i: usize = 0;
        assert(names@.take(0) =~= Seq::<String>::empty());
        while i < names.len()
            invariant
                i <= names@.len(),
                deliveries@ == refreshes_of(self.by_pid@, names@.take(i as int)),
            decreases names.len() - i,
        {
            proof {
                assert(names@.take(i + 1).drop_last() =~= names@.take(i as int));
                assert(names@.take(i + 1).last() == names@[i as int]);
            }
            let mut more = self.refresh_control_session(names[i].as_str());
            deliveries.append(&mut more);
            i = i + 1;
        }
        assert(names@.take(i as int) =~= names@);
        deliveries
    }

    /// Follows the end of a session: its clients close and are told to exit, and
    /// clients that were attached to it before forget it.
    pub fn exit_control_session_identity(
        &mut self,
        name: &str,
        id: u32,
        reason: &Option<String>,
    ) -> (deliveries: Vec<ControlDelivery>)
        requires
            old(self).wf(),
        ensures
            final(self).wf(),
            final(self).next_id == old(self).next_id,
            final(self).by_pid@.len() == old(self).by_pid@.len(),
            forall|i: int|
                0 <= i < final(self).by_pid@.len() ==> #[trigger] final(self).by_pid@[i]
                    == exited_entry(old(self).by_pid@[i], name@, id),
            deliveries@ == deliveries_for(
                old(self).by_pid@,
                name@,
                Some(id),
                ControlServerEvent::Exit(*reason),
            ),
    {
        let mut deliveries: Vec<ControlDelivery> = Vec::new();
        let mut i: usize = 0;
        let ghost before = self.by_pid@;
        assert(before.take(0) =~= Seq::<ControlEntry>::empty());
        while i < self.by_pid.len()
            invariant
                i <= self.by_pid@.len(),
                self.by_pid@.len() == before.len(),
                self.next_id == old(self).next_id,
                forall|k: int|
                    0 <= k < i ==> #[trigger] self.by_pid@[k] == exited_entry(before[k], name@, id),
                forall|k: int| i <= k < before.len() ==> #[trigger] self.by_pid@[k] == before[k],
                deliveries@ == deliveries_for(
                    before.take(i as int),
                    name@,
                    Some(id),
                    ControlServerEvent::Exit(*reason),
                ),
            decreases self.by_pid.len() - i,
        {
            proof {
                let next = before.take(i + 1);
                assert(next.drop_last() =~= before.take(i as int));
                assert(next.last() == before[i as int]);
            }
            let attached = client_serves(&self.by_pid[i].client, name, Some(id));
            let was_attached = name_is(&self.by_pid[i].client.last_session, name)
                && self.by_pid[i].client.last_session_id == Some(id);
            let pid: u32 = self.by_pid[i].pid;
            if was_attached {
                self.by_pid[i].client.last_session = None;
                self.by_pid[i].client.last_session_id = None;
            }
            if attached {
                self.by_pid[i].client.closing = true;
                deliveries.push(
                    ControlDelivery { pid, event: ControlServerEvent::Exit(copy_name(reason)) },
                );
            }
            i = i + 1;
        }
        proof {
            assert(before.take(i as int) =~= before);
            assert forall|a: int, b: int| 0 <= a < b < self.by_pid@.len() implies
                self.by_pid@[a].pid != self.by_pid@[b].pid by {
                assert(self.by_pid@[a].pid == before[a].pid);
                assert(self.by_pid@[b].pid == before[b].pid);
            }
        }
        deliveries
    }

    /// Detaches all clients of the session named `name`: they are told to exit
    /// and leave the table. A session that does not exist has none.
    pub fn detach_control_clients_for_session(
        &mut self,
        store: &SessionStore,
        name: &str,
        reason: &Option<String>,
    ) -> (deliveries: Vec<ControlDelivery>)
        requires
            old(self).wf(),
        ensures
            final(self).wf(),
            final(self).next_id == old(self).next_id,
            match store.session_spec(name@) {
                None => final(self).by_pid@ == old(self).by_pid@ && deliveries@.len() == 0,
                Some(session) => {
                    &&& deliveries@ == deliveries_for(
                        old(self).by_pid@,
                        name@,
                        Some(session.id),
                        ControlServerEvent::Exit(*reason),
                    )
                    &&& final(self).by_pid@ == clients_not_serving(
                        old(self).by_pid@,
                        name@,
                        session.id,
                    )
                },
            },
    {
        let mut deliveries: Vec<ControlDelivery> = Vec::new();
        let id: u32 = match store.session(name) {
            None => {
                return deliveries;
            },
            Some(session) => session.id,
        };
        let ghost before = self.by_pid@;
        let mut i: usize = 0;
        assert(before.take(0) =~= Seq::<ControlEntry>::empty());
        assert(before.subrange(0, before.len() as int) =~= before);
        assert(clients_not_serving(before.take(0), name@, id) + before =~= before);
        let ghost mut seen: int = 0;
        while i < self.by_pid.len()
            invariant
                self.wf(),
                self.next_id == old(self).next_id,
                0 <= seen <= before.len(),
                i == clients_not_serving(before.take(seen), name@, id).len(),
                self.by_pid@ == clients_not_serving(before.take(seen), name@, id)
                    + before.subrange(seen, before.len() as int),
                deliveries@ == deliveries_for(
                    before.take(seen),
                    name@,
                    Some(id),
                    ControlServerEvent::Exit(*reason),
                ),
            decreases before.len() - seen,
        {
            proof {
                let next = before.take(seen + 1);
                assert(next.drop_last() =~= before.take(seen));
                assert(next.last() == before[seen]);
                assert(self.by_pid@[i as int] == before[seen]);
            }
            let ghost kept = clients_not_serving(before.take(seen), name@, id);
            if client_serves(&self.by_pid[i].client, name, Some(id)) {
                let entry = self.remove_at(i);
                deliveries.push(
                    ControlDelivery {
                        pid: entry.pid,
                        event: ControlServerEvent::Exit(copy_name(reason)),
                    },
                );
                assert(self.by_pid@ =~= kept + before.subrange(seen + 1, before.len() as int));
            } else {
                i = i + 1;
                assert(self.by_pid@ =~= kept.push(before[seen]) + before.subrange(
                    seen + 1,
                    before.len() as int,
                ));
            }
            proof {
                seen = seen + 1;
            }
        }
        assert(before.take(seen) =~= before);
        assert(self.by_pid@ =~= clients_not_serving(before, name@, id));
        deliveries
    }

    /// The notification of a client, where it is there.
    pub fn deliver_control_notification(&self, requester_pid: u32, line: String) -> (delivery:
        Option<ControlDelivery>)
        ensures
            delivery == if self.client(requester_pid) is Some {
                Some(
                    ControlDelivery {
                        pid: requester_pid,
                        event: ControlServerEvent::Notification(line),
                    },
                )
            } else {
                None
            },
    {
        match self.find(requester_pid) {
            Some(_) => Some(
                ControlDelivery {
                    pid: requester_pid,
                    event: ControlServerEvent::Notification(line),
                },
            ),
            None => None,
        }
    }

    /// The notification of the client of a queue, where it is still that one and
    /// not closing.
    pub fn send_control_notification_to_queue(
        &self,
        identity: ControlClientIdentity,
        line: String,
    ) -> (delivery: Option<ControlDelivery>)
        ensures
            delivery == if self.serves_queue(identity.pid(), Some(identity.id())) {
                Some(
                    ControlDelivery {
                        pid: identity.pid(),
                        event: ControlServerEvent::Notification(line),
                    },
                )
            } else {
                None
            },
    {
        match self.queue_entry(identity.requester_pid(), Some(identity.control_id())) {
            Some(_) => self.deliver_control_notification(identity.requester_pid(), line),
            None => None,
        }
    }

    /// Makes a client close, and hands out the session that it is attached to
    /// and the event that tells it.
    pub fn exit_control_client_with_expected_id(
        &mut self,
        requester_pid: u32,
        expected_control_id: Option<u64>,
        reason: Option<String>,
    ) -> (result: Result<(Option<String>, ControlDelivery), RmuxError>)
        requires
            old(self).wf(),
        ensures
            final(self).wf(),
            final(self).next_id == old(self).next_id,
            match (entry_at(old(self).by_pid@, requester_pid), result) {
                (Some(at), Ok((session_name, delivery))) => {
                    let entry = old(self).by_pid@[at];
                    &&& expected_control_id is Some ==> expected_control_id == Some(
                        entry.client.id,
                    )
                    &&& session_name == entry.client.session_name
                    &&& delivery == (ControlDelivery {
                        pid: requester_pid,
                        event: ControlServerEvent::Exit(reason),
                    })
                    &&& final(self).by_pid@ == old(self).by_pid@.update(
                        at,
                        ControlEntry {
                            pid: entry.pid,
                            client: ActiveControl { closing: true, ..entry.client },
                        },
                    )
                },
                (found, Err(error)) => {
                    &&& error@ == scope_support::client_required("detach-client"@)
                    &&& *final(self) == *old(self)
                    &&& found is None || (expected_control_id is Some && expected_control_id
                        != Some(old(self).by_pid@[found->0].client.id))
                },
                (None, Ok(_)) => false,
            },
    {
        let at: usize = match self.find(requester_pid) {
            None => {
                return Err(scope_support::attached_client_required("detach-client"));
            },
            Some(at) => at,
        };
        if let Some(expected) = expected_control_id {
            if self.by_pid[at].client.id != expected {
                return Err(scope_support::attached_client_required("detach-client"));
            }
        }
        let session_name = copy_name(&self.by_pid[at].client.session_name);
        let ghost before = self.by_pid@;
        self.by_pid[at].client.closing = true;
        assert(self.by_pid@ =~= before.update(
            at as int,
            ControlEntry {
                pid: before[at as int].pid,
                client: ActiveControl { closing: true, ..before[at as int].client },
            },
        ));
        Ok(
            (
                session_name,
                ControlDelivery { pid: requester_pid, event: ControlServerEvent::Exit(reason) },
            ),
        )
    }

    /// The clients with the sessions that they are attached to by their present
    /// names. A client whose session is gone, or known by name or id alone, is
    /// left out.
    pub fn control_clients_snapshot_locked(&self, store: &SessionStore) -> (snapshots: Vec<
        ControlClientSnapshot,
    >)
        ensures
            snapshot_models(snapshots@) == client_snapshots(*store, self.by_pid@),
    {
        let mut snapshots: Vec<ControlClientSnapshot> = Vec::new();
        let mut i: usize = 0;
        assert(self.by_pid@.take(0) =~= Seq::<ControlEntry>::empty());
        assert(snapshot_models(snapshots@) =~= Seq::<SnapshotModel>::empty());
        while i < self.by_pid.len()
            invariant
                i <= self.by_pid@.len(),
                snapshot_models(snapshots@) == client_snapshots(
                    *store,
                    self.by_pid@.take(i as int),
                ),
            decreases self.by_pid.len() - i,
        {
            proof {
                let next = self.by_pid@.take(i + 1);
                assert(next.drop_last() =~= self.by_pid@.take(i as int));
                assert(next.last() == self.by_pid@[i as int]);
            }
            let ghost before = snapshots@;
            let entry = &self.by_pid[i];
            match (&entry.client.session_name, entry.client.session_id) {
                (None, None) => {
                    snapshots.push(ControlClientSnapshot { pid: entry.pid, session_name: None });
                    assert(snapshot_models(snapshots@) =~= snapshot_models(before).push(
                        (entry.pid, None),
                    ));
                },
                (Some(_), Some(id)) => {
                    if let Some(session) = store.session_by_id(id) {
                        snapshots.push(
                            ControlClientSnapshot {
                                pid: entry.pid,
                                session_name: Some(session.name.clone()),
                            },
                        );
                        assert(snapshot_models(snapshots@) =~= snapshot_models(before).push(
                            (entry.pid, Some(session.name@)),
                        ));
                    }
                },
                _ => {},
            }
            i = i + 1;
        }
        assert(self.by_pid@.take(i as int) =~= self.by_pid@);
        snapshots
    }

    fn pids(&self) -> (pids: Vec<u32>)
        ensures
            pids@ == entry_pids(self.by_pid@),
    {
        let mut pids: Vec<u32> = Vec::new();
        let mut i: usize = 0;
        while i < self.by_pid.len()
            invariant
                i <= self.by_pid@.len(),
                pids@ == entry_pids(self.by_pid@.take(i as int)),
            decreases self.by_pid.len() - i,
        {
            let ghost before = pids@;
            pids.push(self.by_pid[i].pid);
            i = i + 1;
            assert(entry_pids(self.by_pid@.take(i as int)) =~= before.push(
                self.by_pid@[i - 1].pid,
            ));
        }
        assert(self.by_pid@.take(i as int) =~= self.by_pid@);
        pids
    }

    /// The client that a command means. A command that a control-mode client
    /// queued means that client; else one of the requester's pid is meant, else
    /// the only client there is. `attach_pids` are the pids of the other kind.
    pub fn resolve_managed_client(
        &self,
        store: &SessionStore,
        queue: Option<ControlClientIdentity>,
        attach_pids: &[u32],
        requester_pid: u32,
        command_name: &str,
    ) -> (result: Result<ManagedClient, RmuxError>)
        requires
            attach_pids@.len() + self.by_pid@.len() <= usize::MAX,
        ensures
            match queue {
                Some(identity) => {
                    let refusal = queue_identity_refusal(
                        *store,
                        self.by_pid@,
                        requester_pid,
                        identity.id(),
                    );
                    &&& scope_support::refusal_of(result) == refusal
                    &&& refusal is None ==> result == Ok::<ManagedClient, RmuxError>(
                        ManagedClient::Control(requester_pid),
                    )
                },
                None => managed_client_resolved(
                    attach_pids@,
                    self.by_pid@,
                    requester_pid,
                    command_name@,
                    result,
                ),
            },
    {
        if let Some(identity) = queue {
            return match self.validate_control_queue_identity_locked(
                store,
                requester_pid,
                identity.control_id(),
            ) {
                Ok(()) => Ok(ManagedClient::Control(requester_pid)),
                Err(error) => Err(error),
            };
        }
        if contains_pid(attach_pids, requester_pid) {
            return Ok(ManagedClient::Attach(requester_pid));
        }
        if self.find(requester_pid).is_some() {
            return Ok(ManagedClient::Control(requester_pid));
        }
        let count: usize = attach_pids.len() + self.by_pid.len();
        if count == 0 {
            if text::same_text(command_name, "show-messages") {
                return Err(RmuxError::Message("no current client".to_owned()));
            }
            return Err(scope_support::attached_client_required(command_name));
        }
        if count == 1 {
            if attach_pids.len() == 1 {
                return Ok(ManagedClient::Attach(attach_pids[0]));
            }
            return Ok(ManagedClient::Control(self.by_pid[0].pid));
        }
        let control_pids = self.pids();
        Err(
            scope_support::ambiguous_attached_client_listing(
                command_name,
                attach_pids,
                control_pids.as_slice(),
            ),
        )
    }
}

fn contains_pid(pids: &[u32], pid: u32) -> (contains: bool)
    ensures
        contains == pids@.contains(pid),
{
    let mut i: usize = 0;
    while i < pids.len()
        invariant
            i <= pids@.len(),
            forall|k: int| 0 <= k < i ==> pids@[k] != pid,
        decreases pids.len() - i,
    {
        if pids[i] == pid {
            return true;
        }
        i = i + 1;
    }
    false
}

/// The pids of the clients, in table order.
pub open spec fn entry_pids(entries: Seq<ControlEntry>) -> Seq<u32> {
    entries.map_values(|entry: ControlEntry| entry.pid)
}

/// Which client a command means that no control-mode client queued.
pub open spec fn managed_client_resolved(
    attach_pids: Seq<u32>,
    entries: Seq<ControlEntry>,
    requester_pid: u32,
    command_name: Seq<char>,
    result: Result<ManagedClient, RmuxError>,
) -> bool {
    let count = attach_pids.len() + entries.len();
    if attach_pids.contains(requester_pid) {
        result == Ok::<ManagedClient, RmuxError>(ManagedClient::Attach(requester_pid))
    } else if entry_at(entries, requester_pid) is Some {
        result == Ok::<ManagedClient, RmuxError>(ManagedClient::Control(requester_pid))
    } else if count == 0 && command_name == "show-messages"@ {
        result matches Err(error) && error@ == ErrorModel::Message("no current client"@)
    } else if count == 0 {
        result matches Err(error) && error@ == scope_support::client_required(command_name)
    } else if count == 1 && attach_pids.len() == 1 {
        result == Ok::<ManagedClient, RmuxError>(ManagedClient::Attach(attach_pids[0]))
    } else if count == 1 {
        result == Ok::<ManagedClient, RmuxError>(ManagedClient::Control(entries[0].pid))
    } else {
        result matches Err(error) && error@ == scope_support::ambiguous_client(
            command_name,
            attach_pids,
            entry_pids(entries),
        )
    }
}

/// Why attaching the client of a queue to a session is refused.
pub open spec fn attach_refusal(
    store: SessionStore,
    entries: Seq<ControlEntry>,
    identity: ControlClientIdentity,
    session_name: Seq<char>,
    expected_session_id: Option<u32>,
) -> Option<ErrorModel> {
    match queue_identity_refusal(store, entries, identity.pid(), identity.id()) {
        Some(refusal) => Some(refusal),
        None => match store.session_spec(session_name) {
            None => Some(ErrorModel::SessionNotFound(session_name)),
            Some(session) => if expected_session_id is Some && expected_session_id != Some(
                session.id,
            ) {
                Some(ErrorModel::SessionNotFound(session_name))
            } else {
                None
            },
        },
    }
}

/// The names of the sessions of clients that are not closing.
pub open spec fn open_sessions(entries: Seq<ControlEntry>) -> Seq<String>
    decreases entries.len(),
{
    if entries.len() == 0 {
        Seq::empty()
    } else {
        let before = open_sessions(entries.drop_last());
        match entries.last().client.session_name {
            Some(name) => if entries.last().client.closing {
                before
            } else {
                before.push(name)
            },
            None => before,
        }
    }
}

/// The clients that are not attached to the session.
pub open spec fn clients_not_serving(
    entries: Seq<ControlEntry>,
    name: Seq<char>,
    id: u32,
) -> Seq<ControlEntry>
    decreases entries.len(),
{
    if entries.len() == 0 {
        Seq::empty()
    } else {
        let before = clients_not_serving(entries.drop_last(), name, id);
        if serves(entries.last().client, name, Some(id)) {
            before
        } else {
            before.push(entries.last())
        }
    }
}

/// A client with the session that it is attached to.
#[derive(Debug, PartialEq, Eq)]
pub struct ControlClientSnapshot {
    pub pid: u32,
    pub session_name: Option<String>,
}

/// A snapshot as a value.
pub type SnapshotModel = (u32, Option<Seq<char>>);

impl View for ControlClientSnapshot {
    type V = SnapshotModel;

    open spec fn view(&self) -> SnapshotModel {
        (
            self.pid,
            match self.session_name {
                Some(name) => Some(name@),
                None => None,
            },
        )
    }
}

/// `snapshots` as values.
pub open spec fn snapshot_models(snapshots: Seq<ControlClientSnapshot>) -> Seq<SnapshotModel> {
    snapshots.map_values(|snapshot: ControlClientSnapshot| snapshot@)
}

/// The clients with the sessions that they are attached to by their present
/// names.
pub open spec fn client_snapshots(store: SessionStore, entries: Seq<ControlEntry>) -> Seq<
    SnapshotModel,
>
    decreases entries.len(),
{
    if entries.len() == 0 {
        Seq::empty()
    } else {
        let before = client_snapshots(store, entries.drop_last());
        let entry = entries.last();
        match (entry.client.session_name, entry.client.session_id) {
            (None, None) => before.push((entry.pid, None)),
            (Some(_), Some(id)) => match store.session_by_id_spec(id) {
                Some(session) => before.push((entry.pid, Some(session.name@))),
                None => before,
            },
            _ => before,
        }
    }
}

proof fn lemma_updated_entry(
    entries: Seq<ControlEntry>,
    at: int,
    entry: ControlEntry,
    other: u32,
)
    requires
        0 <= at < entries.len(),
        entries[at].pid == entry.pid,
    ensures
        entry_at(entries.update(at, entry), other) == entry_at(entries, other),
{
    lemma_entry_at(entries, other);
    lemma_entry_at(entries.update(at, entry), other);
    let updated = entries.update(at, entry);
    assert forall|j: int| 0 <= j < entries.len() implies (#[trigger] updated[j]).pid
        == entries[j].pid by {}
    match (entry_at(entries, other), entry_at(updated, other)) {
        (Some(a), Some(b)) => {
            assert(updated[a].pid == entries[a].pid);
            assert(updated[b].pid == entries[b].pid);
        },
        (Some(a), None) => {
            assert(updated[a].pid == entries[a].pid);
        },
        (None, Some(b)) => {
            assert(updated[b].pid == entries[b].pid);
        },
        (None, None) => {},
    }
}

proof fn lemma_pushed_entry(entries: Seq<ControlEntry>, entry: ControlEntry, other: u32)
    requires
        entry_at(entries, entry.pid) is None,
    ensures
        entry_at(entries.push(entry), other) == if other == entry.pid {
            Some(entries.len() as int)
        } else {
            entry_at(entries, other)
        },
{
    lemma_entry_at(entries, other);
    lemma_entry_at(entries, entry.pid);
    lemma_entry_at(entries.push(entry), other);
    let pushed = entries.push(entry);
    assert(pushed[entries.len() as int] == entry);
    assert forall|j: int| 0 <= j < entries.len() implies #[trigger] pushed[j] == entries[j] by {}
    match entry_at(entries, other) {
        Some(a) => {
            assert(pushed[a] == entries[a]);
        },
        None => {},
    }
    match entry_at(pushed, other) {
        Some(b) => {
            if b < entries.len() {
                assert(pushed[b] == entries[b]);
            }
        },
        None => {},
    }
}

/// How many clients are attached to a session once a client switched to it:
/// one more, unless the client was attached to it before.
pub fn attached_count_after_switch(
    attached_count: usize,
    client_session: Option<&str>,
    session_name: &str,
) -> (count: usize)
    ensures
        count == if client_session matches Some(name) && name@ == session_name@ {
            attached_count
        } else if attached_count < usize::MAX {
            (attached_count + 1) as usize
        } else {
            usize::MAX
        },
{
    let there = match client_session {
        Some(name) => text::same_text(name, session_name),
        None => false,
    };
    if there {
        attached_count
    } else {
        attached_count.saturating_add(1)
    }
}

/// The session that a command of `requester_pid` means without saying so. A
/// command that a control-mode client queued means that client's session; else
/// that of an attached client, `attach_candidate`, comes first.
pub fn current_session_candidate(
    clients: &ActiveControlState,
    store: &SessionStore,
    queue: Option<ControlClientIdentity>,
    attach_candidate: Option<String>,
    requester_pid: u32,
) -> (candidate: Option<String>)
    ensures
        match queue {
            Some(identity) => if queue_identity_refusal(
                *store,
                clients.by_pid@,
                requester_pid,
                identity.id(),
            ) is None {
                candidate == clients.client(requester_pid)->0.session_name
            } else {
                candidate is None
            },
            None => if attach_candidate is Some {
                candidate == attach_candidate
            } else {
                let found = match clients.client(requester_pid) {
                    Some(client) => if client.closing {
                        None
                    } else {
                        session_identity(client)
                    },
                    None => if clients.by_pid@.len() == 1 && !clients.by_pid@[0].client.closing {
                        session_identity(clients.by_pid@[0].client)
                    } else {
                        None
                    },
                };
                match (found, candidate) {
                    (Some((name, id)), Some(candidate)) => store.names(name, id) && candidate@
                        == name,
                    (Some((name, id)), None) => !store.names(name, id),
                    (None, candidate) => candidate is None,
                }
            },
        },
{
    if let Some(identity) = queue {
        return match clients.validate_control_queue_identity_locked(
            store,
            requester_pid,
            identity.control_id(),
        ) {
            Err(_) => None,
            Ok(()) => match clients.find(requester_pid) {
                Some(at) => copy_name(&clients.by_pid[at].client.session_name),
                None => None,
            },
        };
    }
    if attach_candidate.is_some() {
        return attach_candidate;
    }
    match clients.current_session_candidate(requester_pid) {
        Some((name, id)) => {
            if store.session_has_id(name.as_str(), id) {
                Some(name)
            } else {
                None
            }
        },
        None => None,
    }
}

/// Something that happened to a session, window, pane or client.
#[derive(Debug, PartialEq, Eq)]
pub enum LifecycleEvent {
    PaneModeChanged,
    WindowLayoutChanged,
    WindowPaneChanged,
    WindowUnlinked,
    WindowLinked,
    WindowRenamed,
    ClientSessionChanged,
    ClientResized,
    ClientDetached,
    SessionRenamed,
    SessionCreated,
    SessionWindowChanged,
    PasteBufferChanged,
    PasteBufferDeleted,
    SessionClosed { session_name: String, session_id: Option<u32> },
    ClientActive,
    ClientAttached,
    ClientFocusIn,
    ClientFocusOut,
    ClientLightTheme,
    ClientDarkTheme,
    AlertBell,
    AlertActivity,
    AlertSilence,
    PaneExited,
    PaneDied,
    PaneFocusIn,
    PaneFocusOut,
    PaneSetClipboard,
    PaneTitleChanged,
    WindowResized,
    AfterSelectWindow,
    AfterSelectPane,
    AfterSendKeys,
    AfterSetOption,
}

/// What an event changes for control-mode clients.
#[derive(Debug, PartialEq, Eq)]
pub enum ControlRefresh {
    /// Nothing.
    Keep,
    /// All are refreshed.
    RefreshAll,
    /// The clients of a session exit, then all are refreshed.
    ExitSession { session_name: String, session_id: u32 },
}

/// The event says nothing of what control-mode clients are told of sessions.
pub open spec fn leaves_sessions_alone(event: LifecycleEvent) -> bool {
    match event {
        LifecycleEvent::ClientActive
        | LifecycleEvent::ClientAttached
        | LifecycleEvent::ClientFocusIn
        | LifecycleEvent::ClientFocusOut
        | LifecycleEvent::ClientLightTheme
        | LifecycleEvent::ClientDarkTheme
        | LifecycleEvent::AlertBell
        | LifecycleEvent::AlertActivity
        | LifecycleEvent::AlertSilence
        | LifecycleEvent::PaneExited
        | LifecycleEvent::PaneDied
        | LifecycleEvent::PaneFocusIn
        | LifecycleEvent::PaneFocusOut
        | LifecycleEvent::PaneSetClipboard
        | LifecycleEvent::PaneTitleChanged
        | LifecycleEvent::WindowResized
        | LifecycleEvent::AfterSelectWindow
        | LifecycleEvent::AfterSelectPane
        | LifecycleEvent::AfterSendKeys
        | LifecycleEvent::AfterSetOption => true,
        _ => false,
    }
}

/// What an event changes for control-mode clients. Only the end of a session
/// that is known by its id makes clients exit.
pub fn refresh_control_sessions_for_event(event: &LifecycleEvent) -> (refresh: ControlRefresh)
    ensures
        match event {
            LifecycleEvent::PaneModeChanged
            | LifecycleEvent::WindowLayoutChanged
            | LifecycleEvent::WindowPaneChanged
            | LifecycleEvent::WindowUnlinked
            | LifecycleEvent::WindowLinked
            | LifecycleEvent::WindowRenamed
            | LifecycleEvent::ClientSessionChanged
            | LifecycleEvent::ClientResized
            | LifecycleEvent::ClientDetached
            | LifecycleEvent::SessionRenamed
            | LifecycleEvent::SessionCreated
            | LifecycleEvent::SessionWindowChanged
            | LifecycleEvent::PasteBufferChanged
            | LifecycleEvent::PasteBufferDeleted
            | LifecycleEvent::SessionClosed { session_id: None, .. } => refresh
                == ControlRefresh::RefreshAll,
            LifecycleEvent::SessionClosed { session_name, session_id: Some(id) } => refresh
                == (ControlRefresh::ExitSession { session_name: *session_name, session_id: *id }),
            LifecycleEvent::ClientActive
            | LifecycleEvent::ClientAttached
            | LifecycleEvent::ClientFocusIn
            | LifecycleEvent::ClientFocusOut
            | LifecycleEvent::ClientLightTheme
            | LifecycleEvent::ClientDarkTheme
            | LifecycleEvent::AlertBell
            | LifecycleEvent::AlertActivity
            | LifecycleEvent::AlertSilence
            | LifecycleEvent::PaneExited
            | LifecycleEvent::PaneDied
            | LifecycleEvent::PaneFocusIn
            | LifecycleEvent::PaneFocusOut
            | LifecycleEvent::PaneSetClipboard
            | LifecycleEvent::PaneTitleChanged
            | LifecycleEvent::WindowResized
            | LifecycleEvent::AfterSelectWindow
            | LifecycleEvent::AfterSelectPane
            | LifecycleEvent::AfterSendKeys
            | LifecycleEvent::AfterSetOption => refresh == ControlRefresh::Keep,
        },
        match event {
            LifecycleEvent::SessionClosed { session_name, session_id: Some(id) } => refresh
                == (ControlRefresh::ExitSession { session_name: *session_name, session_id: *id }),
            _ => refresh == if leaves_sessions_alone(*event) {
                ControlRefresh::Keep
            } else {
                ControlRefresh::RefreshAll
            },
        },
{
    match event {
        LifecycleEvent::SessionClosed { session_name, session_id } => match session_id {
            Some(id) => ControlRefresh::ExitSession {
                session_name: session_name.clone(),
                session_id: *id,
            },
            None => ControlRefresh::RefreshAll,
        },
        LifecycleEvent::PaneModeChanged
        | LifecycleEvent::WindowLayoutChanged
        | LifecycleEvent::WindowPaneChanged
        | LifecycleEvent::WindowUnlinked
        | LifecycleEvent::WindowLinked
        | LifecycleEvent::WindowRenamed
        | LifecycleEvent::ClientSessionChanged
        | LifecycleEvent::ClientResized
        | LifecycleEvent::ClientDetached
        | LifecycleEvent::SessionRenamed
        | LifecycleEvent::SessionCreated
        | LifecycleEvent::SessionWindowChanged
        | LifecycleEvent::PasteBufferChanged
        | LifecycleEvent::PasteBufferDeleted => ControlRefresh::RefreshAll,
        _ => ControlRefresh::Keep,
    }
}

/// The lines of an error text that are not empty, each announced as an error of
/// the configuration.
pub open spec fn config_error_lines(lines: Seq<Seq<char>>) -> Seq<Seq<char>>
    decreases lines.len(),
{
    if lines.len() == 0 {
        Seq::empty()
    } else {
        let before = config_error_lines(lines.drop_last());
        if lines.last().len() == 0 {
            before
        } else {
            before.push("%config-error "@ + lines.last())
        }
    }
}

/// The notifications of an error that the configuration had at start: one for
/// each line of a server's message, one for any other error, whose words are
/// `text`.
pub open spec fn config_error_texts(error: RmuxError, text: Seq<char>) -> Seq<Seq<char>> {
    match error {
        RmuxError::Server(message) => config_error_lines(text::lines_from(message@, 0)),
        _ => seq!["%config-error "@ + text],
    }
}

/// The notifications of all errors, each with its words, in order.
pub open spec fn all_config_error_texts(errors: Seq<(RmuxError, String)>) -> Seq<Seq<char>>
    decreases errors.len(),
{
    if errors.len() == 0 {
        Seq::empty()
    } else {
        all_config_error_texts(errors.drop_last()) + config_error_texts(
            errors.last().0,
            errors.last().1@,
        )
    }
}

fn push_config_error(notifications: &mut Vec<String>, error: &RmuxError, text: &str)
    ensures
        text::views(final(notifications)@) == text::views(old(notifications)@) + config_error_texts(
            *error,
            text@,
        ),
{
    let ghost told = text::views(notifications@);
    match error {
        RmuxError::Server(message) => {
            let lines = text::lines(message.as_str());
            let ghost all = text::views(lines@);
            let mut i: usize = 0;
            assert(all.take(0) =~= Seq::<Seq<char>>::empty());
            assert(told + config_error_lines(all.take(0)) =~= told);
            while i < lines.len()
                invariant
                    i <= lines@.len(),
                    all == text::views(lines@),
                    text::views(notifications@) == told + config_error_lines(all.take(i as int)),
                decreases lines.len() - i,
            {
                proof {
                    let next = all.take(i + 1);
                    assert(next.drop_last() =~= all.take(i as int));
                    assert(next.last() == lines@[i as int]@);
                }
                if !lines[i].as_str().is_empty() {
                    let ghost before = text::views(notifications@);
                    let line = text::concat2("%config-error ", lines[i].as_str());
                    notifications.push(line);
                    assert(text::views(notifications@) =~= before.push(line@));
                    assert(before.push(line@) =~= told + config_error_lines(all.take(i + 1)));
                }
                i = i + 1;
            }
            assert(all.take(i as int) =~= all);
        },
        _ => {
            let line = text::concat2("%config-error ", text);
            notifications.push(line);
            assert(text::views(notifications@) =~= told + seq!["%config-error "@ + text@]);
        },
    }
}

/// Takes the errors that the configuration had at start, each with its words, and
/// hands out the notifications of them.
pub fn take_startup_config_error_notifications(errors: &mut Vec<(RmuxError, String)>) -> (
    notifications: Vec<String>)
    ensures
        final(errors)@ == Seq::<(RmuxError, String)>::empty(),
        text::views(notifications@) == all_config_error_texts(old(errors)@),
{
    let mut notifications: Vec<String> = Vec::new();
    let mut i: usize = 0;
    let ghost all = errors@;
    assert(all.take(0) =~= Seq::<(RmuxError, String)>::empty());
    assert(text::views(notifications@) =~= Seq::<Seq<char>>::empty());
    while i < errors.len()
        invariant
            i <= errors@.len(),
            all == errors@,
            text::views(notifications@) == all_config_error_texts(all.take(i as int)),
        decreases errors.len() - i,
    {
        proof {
            let next = all.take(i + 1);
            assert(next.drop_last() =~= all.take(i as int));
            assert(next.last() == all[i as int]);
        }
        let entry = &errors[i];
        push_config_error(&mut notifications, &entry.0, entry.1.as_str());
        i = i + 1;
    }
    assert(all.take(i as int) =~= all);
    errors.clear();
    notifications
}

/// A rename is no reason to refuse a client's commands: one whose commands were
/// accepted before is accepted after, where the session is the only one of its
/// id and all others are as they were.
pub proof fn a_rename_keeps_clients_accepted(
    store: SessionStore,
    renamed_store: SessionStore,
    before: ActiveControlState,
    after: ActiveControlState,
    name: Seq<char>,
    id: u32,
    new_name: String,
    pid: u32,
    control_id: u64,
)
    requires
        after.by_pid@.len() == before.by_pid@.len(),
        forall|i: int|
            0 <= i < after.by_pid@.len() ==> #[trigger] after.by_pid@[i] == renamed_entry(
                before.by_pid@[i],
                name,
                id,
                new_name,
            ),
        forall|other: Seq<char>| #[trigger] store.names(other, id) ==> other == name,
        renamed_store.names(new_name@, id),
        forall|other: Seq<char>, other_id: u32|
            other_id != id && store.names(other, other_id) ==> #[trigger] renamed_store.names(
                other,
                other_id,
            ),
        queue_identity_refusal(store, before.by_pid@, pid, control_id) is None,
    ensures
        queue_identity_refusal(renamed_store, after.by_pid@, pid, control_id) is None,
{
    lemma_entry_at(before.by_pid@, pid);
    lemma_entry_at(after.by_pid@, pid);
    let at = entry_at(before.by_pid@, pid)->0;
    assert(after.by_pid@[at].pid == pid);
    let found = entry_at(after.by_pid@, pid)->0;
    assert(before.by_pid@[found].pid == after.by_pid@[found].pid);
    assert(found == at);
}

/// A client that did not take an event is gone: nothing is delivered to it any more.
/// All other clients stay.
pub proof fn an_undelivered_client_is_gone(entries: Seq<ControlEntry>, pid: u32, at: int, other: int)
    requires
        forall|i: int, j: int| 0 <= i < j < entries.len() ==> entries[i].pid != entries[j].pid,
        entry_at(entries, pid) == Some(at),
        0 <= other < entries.len(),
        other != at,
    ensures
        entry_at(entries.remove(at), pid) is None,
        entries.remove(at).contains(entries[other]),
{
    lemma_entry_at(entries, pid);
    let rest = entries.remove(at);
    lemma_entry_at(rest, pid);
    assert forall|i: int| 0 <= i < rest.len() implies (#[trigger] rest[i]).pid != pid by {
        let k = if i < at {
            i
        } else {
            i + 1
        };
        assert(rest[i] == entries[k]);
    }
    let k = if other < at {
        other
    } else {
        other - 1
    };
    assert(rest[k] == entries[other]);
}

/// A client that reconnected is not the one before it: the id that its pid had
/// is refused from then on.
pub proof fn a_reconnected_client_is_another(
    store: SessionStore,
    before: ActiveControlState,
    after: ActiveControlState,
    pid: u32,
)
    requires
        before.wf(),
        before.client(pid) is Some,
        after.client(pid) matches Some(client) && client.id == before.next_id,
    ensures
        queue_identity_refusal(store, after.by_pid@, pid, before.client(pid)->0.id) == Some(
            scope_support::client_required("control command"@),
        ),
{
    lemma_entry_at(before.by_pid@, pid);
}

/// Every event that changes which windows, panes or sessions there are, what they are
/// called or how they are laid out, that changes the session or the size of a client or
/// detaches one, or that changes a paste buffer, refreshes all control-mode clients.
pub proof fn every_change_refreshes_control_clients(
    event: LifecycleEvent,
    refresh: ControlRefresh,
)
    requires
        call_ensures(refresh_control_sessions_for_event, (&event,), refresh),
        event is WindowLinked || event is WindowUnlinked || event is WindowRenamed
            || event is WindowLayoutChanged || event is WindowPaneChanged
            || event is SessionWindowChanged || event is SessionCreated || event is SessionRenamed
            || event is ClientSessionChanged || event is ClientResized || event is ClientDetached
            || event is PasteBufferChanged || event is PasteBufferDeleted
            || event is PaneModeChanged,
    ensures
        refresh is RefreshAll,
{
}

/// A session that was closed takes the clients of exactly that session with it, and
/// no others; where it is not known which session of the name it was, none exits, and
/// all are refreshed.
pub proof fn a_closed_session_exits_its_own_clients_alone(
    session_name: String,
    session_id: Option<u32>,
    refresh: ControlRefresh,
)
    requires
        call_ensures(
            refresh_control_sessions_for_event,
            (&LifecycleEvent::SessionClosed { session_name, session_id },),
            refresh,
        ),
    ensures
        match session_id {
            Some(id) => refresh matches ControlRefresh::ExitSession {
                session_name: exits,
                session_id: exits_id,
            } && exits@ == session_name@ && exits_id == id,
            None => refresh is RefreshAll,
        },
{
}

/// Focus, themes, alerts, what programs in panes do by themselves, and what is told
/// after a command, refresh nobody.
pub proof fn what_changes_no_session_refreshes_nobody(
    event: LifecycleEvent,
    refresh: ControlRefresh,
)
    requires
        call_ensures(refresh_control_sessions_for_event, (&event,), refresh),
        event is ClientActive || event is ClientAttached || event is ClientFocusIn
            || event is ClientFocusOut || event is ClientLightTheme || event is ClientDarkTheme
            || event is AlertBell || event is AlertActivity || event is AlertSilence
            || event is PaneExited || event is PaneDied || event is PaneFocusIn
            || event is PaneFocusOut || event is PaneSetClipboard || event is PaneTitleChanged
            || event is WindowResized || event is AfterSelectWindow || event is AfterSelectPane
            || event is AfterSendKeys || event is AfterSetOption,
    ensures
        refresh is Keep,
{
}

/// An event for a session goes to exactly the clients that are attached to it, by its
/// name and, where it is given, its id.
pub proof fn an_event_goes_to_the_clients_of_its_session(
    entries: Seq<ControlEntry>,
    name: Seq<char>,
    id: Option<u32>,
    event: ControlServerEvent,
    pid: u32,
)
    ensures
        deliveries_for(entries, name, id, event).contains(ControlDelivery { pid, event })
            == exists|i: int|
            0 <= i < entries.len() && (#[trigger] entries[i]).pid == pid && (
            entries[i].client.session_name matches Some(session) && session@ == name) && (id is None
                || entries[i].client.session_id == id),
        forall|k: int|
            0 <= k < deliveries_for(entries, name, id, event).len() ==> (#[trigger] deliveries_for(
                entries,
                name,
                id,
                event,
            )[k]).event == event,
        id is None ==> deliveries_for(entries, name, id, event).len() == clients_of(entries, name),
    decreases entries.len(),
{
    if entries.len() > 0 {
        let fewer = entries.drop_last();
        let last = entries.last();
        an_event_goes_to_the_clients_of_its_session(fewer, name, id, event, pid);
        let before = deliveries_for(fewer, name, id, event);
        let delivery = ControlDelivery { pid, event };
        let pushed = before.push(ControlDelivery { pid: last.pid, event });
        assert(pushed.contains(delivery) == (before.contains(delivery) || last.pid == pid)) by {
            if before.contains(delivery) {
                let k = choose|k: int| 0 <= k < before.len() && before[k] == delivery;
                assert(pushed[k] == delivery);
            }
            assert(pushed[before.len() as int] == (ControlDelivery { pid: last.pid, event }));
            if pushed.contains(delivery) {
                let k = choose|k: int| 0 <= k < pushed.len() && pushed[k] == delivery;
                if k < before.len() {
                    assert(before[k] == delivery);
                }
            }
        }
        assert(entries[entries.len() - 1] == last);
        assert forall|i: int| 0 <= i < fewer.len() implies #[trigger] entries[i] == fewer[i] by {}
        if exists|i: int|
            0 <= i < fewer.len() && (#[trigger] fewer[i]).pid == pid && (
            fewer[i].client.session_name matches Some(session) && session@ == name) && (id is None
                || fewer[i].client.session_id == id) {
            let i = choose|i: int|
                0 <= i < fewer.len() && (#[trigger] fewer[i]).pid == pid && (
                fewer[i].client.session_name matches Some(session) && session@ == name) && (id
                    is None || fewer[i].client.session_id == id);
            assert(entries[i] == fewer[i]);
        }
        if exists|i: int|
            0 <= i < entries.len() && (#[trigger] entries[i]).pid == pid && (
            entries[i].client.session_name matches Some(session) && session@ == name) && (id is None
                || entries[i].client.session_id == id) {
            let i = choose|i: int|
                0 <= i < entries.len() && (#[trigger] entries[i]).pid == pid && (
                entries[i].client.session_name matches Some(session) && session@ == name) && (id
                    is None || entries[i].client.session_id == id);
            if i < fewer.len() {
                assert(fewer[i] == entries[i]);
            }
        }
    }
}

/// A client that switches is attached to the session it switched to. The one that it
/// left is remembered, unless it is the same one; all else of the client stays.
pub proof fn a_switch_remembers_the_session_before(
    client: ActiveControl,
    name: String,
    id: u32,
    next: String,
    next_id: u32,
)
    requires
        client.session_name == Some(name),
        client.session_id == Some(id),
    ensures
        ({
            let after = switched_client(client, Some(next), Some(next_id));
            &&& after.session_name == Some(next) && after.session_id == Some(next_id)
            &&& name@ != next@ || id != next_id ==> after.last_session == Some(name)
                && after.last_session_id == Some(id)
            &&& name@ == next@ && id == next_id ==> after.last_session == client.last_session
                && after.last_session_id == client.last_session_id
            &&& after.id == client.id && after.flags == client.flags && after.can_write
                == client.can_write && after.closing == client.closing
        }),
        ({
            let after = switched_client(client, None, None);
            after.session_name is None && after.session_id is None && after.last_session
                == client.last_session
        }),
{
}

/// A rename reaches the clients of exactly the session that is renamed, by its name and
/// id, in the session they have and in the one they had before, and changes nothing else.
pub proof fn a_rename_reaches_its_own_clients(
    entry: ControlEntry,
    name: String,
    id: u32,
    new_name: String,
)
    ensures
        ({
            let after = renamed_entry(entry, name@, id, new_name);
            &&& after.pid == entry.pid && after.client.id == entry.client.id
                && after.client.session_id == entry.client.session_id && after.client.closing
                == entry.client.closing && after.client.last_session_id
                == entry.client.last_session_id
            &&& entry.client.session_name == Some(name) && entry.client.session_id == Some(id)
                ==> after.client.session_name == Some(new_name)
            &&& entry.client.session_id != Some(id) || entry.client.session_name is None
                ==> after.client.session_name == entry.client.session_name
            &&& entry.client.last_session == Some(name) && entry.client.last_session_id == Some(id)
                ==> after.client.last_session == Some(new_name)
            &&& entry.client.last_session_id != Some(id) ==> after.client.last_session
                == entry.client.last_session
        }),
{
}

/// The end of a session closes its clients and is forgotten by those that had it before;
/// clients of other sessions, of the same name or not, stay as they are.
pub proof fn the_end_of_a_session_closes_its_clients(entry: ControlEntry, name: String, id: u32)
    ensures
        ({
            let after = exited_entry(entry, name@, id);
            &&& after.pid == entry.pid && after.client.id == entry.client.id
                && after.client.session_name == entry.client.session_name
            &&& entry.client.session_name == Some(name) && entry.client.session_id == Some(id)
                ==> after.client.closing
            &&& entry.client.session_id != Some(id) || (entry.client.session_name matches Some(other)
                && other@ != name@) ==> after.client.closing == entry.client.closing
            &&& entry.client.last_session == Some(name) && entry.client.last_session_id == Some(id)
                ==> after.client.last_session is None && after.client.last_session_id is None
            &&& entry.client.last_session_id != Some(id) ==> after.client.last_session
                == entry.client.last_session && after.client.last_session_id
                == entry.client.last_session_id
        }),
{
}

/// A queued command is taken from the client that queued it alone: one that is gone, or
/// has its pid with another id, or closes, or whose session is no longer the one it had,
/// is refused; one without a session is taken.
pub proof fn a_queued_command_needs_its_own_client(
    store: SessionStore,
    entries: Seq<ControlEntry>,
    pid: u32,
    expected_id: u64,
    at: int,
)
    requires
        entry_at(entries, pid) == Some(at),
    ensures
        ({
            let client = entries[at].client;
            let refusal = queue_identity_refusal(store, entries, pid, expected_id);
            &&& client.id != expected_id ==> refusal == Some(
                ErrorModel::Server("control command"@ + " requires an attached client"@),
            )
            &&& client.id == expected_id && client.closing ==> refusal == Some(
                ErrorModel::Server("control client is closing"@),
            )
            &&& client.id == expected_id && !client.closing ==> {
                &&& client.session_name is None && client.session_id is None ==> refusal is None
                &&& client.session_name is None && client.session_id is Some ==> refusal == Some(
                    ErrorModel::Server("control client has an invalid session identity"@),
                )
                &&& client.session_name matches Some(name) ==> refusal == if client.session_id
                    matches Some(id) && store.names(name@, id) {
                    None
                } else {
                    Some(ErrorModel::SessionNotFound(name@))
                }
            }
        }),
        forall|other: u32|
            entry_at(entries, other) is None ==> #[trigger] queue_identity_refusal(
                store,
                entries,
                other,
                expected_id,
            ) == Some(ErrorModel::Server("control command"@ + " requires an attached client"@)),
{
}

/// A switch is refused where the two ids that it names differ, where its session is not
/// there or has another id, where its client is gone, is another one or closes, and
/// where its selection is refused, in that order; else it is made.
pub proof fn a_switch_is_refused_in_order(
    store: SessionStore,
    entries: Seq<ControlEntry>,
    pid: u32,
    queued: Option<u64>,
    request: ControlSessionSwitch,
    name: String,
    session: crate::sessions::Session,
    at: int,
)
    requires
        request.next_session_name == Some(name),
        store.session_spec(name@) == Some(session),
        entry_at(entries, pid) == Some(at),
    ensures
        ({
            let refusal = switch_refusal(store, entries, pid, queued, request);
            let client = entries[at].client;
            let command = if request.expected_control_id is Some {
                "switch-client"@
            } else {
                "control session"@
            };
            let required = Some(ErrorModel::Server(command + " requires an attached client"@));
            &&& (request.expected_control_id matches Some(explicit) && queued matches Some(id)
                && explicit != id) ==> refusal == required
            &&& !(request.expected_control_id matches Some(explicit) && queued matches Some(id)
                && explicit != id) ==> {
                &&& (request.expected_session_id matches Some(id) && id != session.id) ==> refusal
                    == Some(ErrorModel::SessionNotFound(name@))
                &&& !(request.expected_session_id matches Some(id) && id != session.id) ==> {
                    let meant = (request.expected_control_id matches Some(id) ==> id == client.id)
                        && (queued matches Some(id) ==> id == client.id);
                    &&& !meant || client.closing ==> refusal == required
                    &&& meant && !client.closing ==> refusal == match request.selection {
                        Some(Err(error)) => Some(error@),
                        _ => None,
                    }
                }
            }
        }),
{
}

/// A switch selects first, where it does, and touches its session last, where it names
/// its client.
pub proof fn a_switch_selects_before_it_touches(
    request: ControlSessionSwitch,
    name: String,
    control_id: u64,
)
    requires
        request.next_session_name == Some(name),
    ensures
        request.expected_control_id is None ==> switch_effects(request) == if request.selection
            is Some {
            seq![SwitchEffect::ApplySelection]
        } else {
            seq![]
        },
        request.expected_control_id == Some(control_id) ==> switch_effects(request) == if request.selection
            is Some {
            seq![
                SwitchEffect::ApplySelection,
                SwitchEffect::TouchAttached { session_name: name },
            ]
        } else {
            seq![SwitchEffect::TouchAttached { session_name: name }]
        },
{
}

/// A command means the client of its requester, an attached one before a control-mode
/// one; without one it means the only client there is. With none it is refused, and with
/// several too.
pub proof fn a_command_means_its_own_client_or_the_only_one(
    state: ActiveControlState,
    store: SessionStore,
    attach_pids: &[u32],
    requester_pid: u32,
    command_name: &str,
    result: Result<ManagedClient, RmuxError>,
)
    requires
        call_ensures(
            ActiveControlState::resolve_managed_client,
            (&state, &store, None, attach_pids, requester_pid, command_name),
            result,
        ),
    ensures
        attach_pids@.contains(requester_pid) ==> result == Ok::<ManagedClient, RmuxError>(
            ManagedClient::Attach(requester_pid),
        ),
        !attach_pids@.contains(requester_pid) && entry_at(state.by_pid@, requester_pid) is Some
            ==> result == Ok::<ManagedClient, RmuxError>(ManagedClient::Control(requester_pid)),
        !attach_pids@.contains(requester_pid) && entry_at(state.by_pid@, requester_pid) is None ==> {
            &&& attach_pids@.len() == 1 && state.by_pid@.len() == 0 ==> result == Ok::<
                ManagedClient,
                RmuxError,
            >(ManagedClient::Attach(attach_pids@[0]))
            &&& attach_pids@.len() == 0 && state.by_pid@.len() == 1 ==> result == Ok::<
                ManagedClient,
                RmuxError,
            >(ManagedClient::Control(state.by_pid@[0].pid))
            &&& attach_pids@.len() == 0 && state.by_pid@.len() == 0 ==> (result matches Err(error)
                && error@ == if command_name@ == "show-messages"@ {
                ErrorModel::Message("no current client"@)
            } else {
                ErrorModel::Server(command_name@ + " requires an attached client"@)
            })
            &&& attach_pids@.len() + state.by_pid@.len() > 1 ==> result is Err
        },
{
}

/// All open clients that have a session are refreshed, each session in turn; closing
/// ones call for none.
pub proof fn open_clients_call_for_a_refresh(entries: Seq<ControlEntry>, entry: ControlEntry)
    ensures
        open_sessions(entries.push(entry)) == match entry.client.session_name {
            Some(name) => if entry.client.closing {
                open_sessions(entries)
            } else {
                open_sessions(entries).push(name)
            },
            None => open_sessions(entries),
        },
        open_sessions(seq![]).len() == 0,
{
    assert(entries.push(entry).drop_last() =~= entries);
}

/// Detaching a session takes exactly its own clients out of the table, and keeps the
/// others in order.
pub proof fn only_the_clients_of_the_session_are_detached(
    entries: Seq<ControlEntry>,
    entry: ControlEntry,
    name: Seq<char>,
    id: u32,
)
    ensures
        clients_not_serving(entries.push(entry), name, id) == if (entry.client.session_name
            matches Some(session) && session@ == name) && entry.client.session_id == Some(id) {
            clients_not_serving(entries, name, id)
        } else {
            clients_not_serving(entries, name, id).push(entry)
        },
        clients_not_serving(seq![], name, id).len() == 0,
        clients_of(entries.push(entry), name) == clients_of(entries, name) + if (
        entry.client.session_name matches Some(session) && session@ == name) {
            1nat
        } else {
            0nat
        },
        clients_of(seq![], name) == 0,
{
    assert(entries.push(entry).drop_last() =~= entries);
}

/// A client is listed with its session by the name that the session has now, found by
/// its id; a client without a session is listed without one, and one whose session is
/// gone is not listed.
pub proof fn a_listing_names_sessions_as_they_are_called_now(
    store: SessionStore,
    entries: Seq<ControlEntry>,
    entry: ControlEntry,
)
    ensures
        ({
            let before = client_snapshots(store, entries);
            let after = client_snapshots(store, entries.push(entry));
            &&& entry.client.session_name is None && entry.client.session_id is None ==> after
                == before.push((entry.pid, None::<Seq<char>>))
            &&& entry.client.session_name is Some ==> (entry.client.session_id matches Some(id)
                ==> after == match store.session_by_id_spec(id) {
                Some(session) => before.push((entry.pid, Some(session.name@))),
                None => before,
            })
            &&& entry.client.session_name is Some != entry.client.session_id is Some ==> after
                == before
        }),
{
    assert(entries.push(entry).drop_last() =~= entries);
}

/// Attaching is refused where the queue's own client is, where the session is missing,
/// and where it has another id than the one that is expected.
pub proof fn attaching_needs_the_session_that_is_meant(
    store: SessionStore,
    entries: Seq<ControlEntry>,
    identity: ControlClientIdentity,
    name: Seq<char>,
    expected: Option<u32>,
)
    requires
        queue_identity_refusal(store, entries, identity.pid(), identity.id()) is None,
    ensures
        attach_refusal(store, entries, identity, name, expected) == match store.session_spec(name) {
            Some(session) => if expected is None || expected == Some(session.id) {
                None
            } else {
                Some(ErrorModel::SessionNotFound(name))
            },
            None => Some(ErrorModel::SessionNotFound(name)),
        },
{
}

/// Each line of a server's message that is not empty is told as an error of the
/// configuration, and any other error in its own words.
pub proof fn errors_of_the_configuration_are_told_line_by_line(
    lines: Seq<Seq<char>>,
    line: Seq<char>,
    error: RmuxError,
    text: Seq<char>,
)
    ensures
        config_error_lines(lines.push(line)) == if line.len() == 0 {
            config_error_lines(lines)
        } else {
            config_error_lines(lines).push("%config-error "@ + line)
        },
        config_error_lines(seq![]).len() == 0,
        error !is Server ==> config_error_texts(error, text) == seq!["%config-error "@ + text],
        error matches RmuxError::Server(message) ==> config_error_texts(error, text)
            == config_error_lines(text::lines_from(message@, 0)),
{
    assert(lines.push(line).drop_last() =~= lines);
}

/// A refresh of all reaches every client that has a session and is not closing.
pub proof fn a_refresh_of_all_reaches_every_open_client(
    state: ActiveControlState,
    deliveries: Vec<ControlDelivery>,
    i: int,
)
    requires
        call_ensures(ActiveControlState::refresh_all_control_sessions, (&state,), deliveries),
        0 <= i < state.by_pid@.len(),
        state.by_pid@[i].client.session_name is Some,
        !state.by_pid@[i].client.closing,
    ensures
        deliveries@.contains(
            ControlDelivery { pid: state.by_pid@[i].pid, event: ControlServerEvent::Refresh },
        ),
{
    let entries = state.by_pid@;
    lemma_open_session_is_listed(entries, i);
    let names = open_sessions(entries);
    let name = entries[i].client.session_name->0;
    let k = choose|k: int| 0 <= k < names.len() && names[k] == name;
    let delivery = ControlDelivery { pid: entries[i].pid, event: ControlServerEvent::Refresh };
    an_event_goes_to_the_clients_of_its_session(
        entries,
        name@,
        None,
        ControlServerEvent::Refresh,
        entries[i].pid,
    );
    assert(deliveries_for(entries, name@, None, ControlServerEvent::Refresh).contains(delivery));
    lemma_refreshed_with_its_session(entries, names, k, delivery);
}

proof fn lemma_open_session_is_listed(entries: Seq<ControlEntry>, i: int)
    requires
        0 <= i < entries.len(),
        entries[i].client.session_name is Some,
        !entries[i].client.closing,
    ensures
        open_sessions(entries).contains(entries[i].client.session_name->0),
    decreases entries.len(),
{
    let fewer = entries.drop_last();
    let before = open_sessions(fewer);
    if i < fewer.len() {
        lemma_open_session_is_listed(fewer, i);
        let name = entries[i].client.session_name->0;
        let k = choose|k: int| 0 <= k < before.len() && before[k] == name;
        assert(open_sessions(entries)[k] == name);
    } else {
        assert(open_sessions(entries)[before.len() as int] == entries[i].client.session_name->0);
    }
}

proof fn lemma_refreshed_with_its_session(
    entries: Seq<ControlEntry>,
    names: Seq<String>,
    k: int,
    delivery: ControlDelivery,
)
    requires
        0 <= k < names.len(),
        deliveries_for(entries, names[k]@, None, ControlServerEvent::Refresh).contains(delivery),
    ensures
        refreshes_of(entries, names).contains(delivery),
    decreases names.len(),
{
    let fewer = names.drop_last();
    let before = refreshes_of(entries, fewer);
    let last = deliveries_for(entries, names.last()@, None, ControlServerEvent::Refresh);
    if k < fewer.len() {
        lemma_refreshed_with_its_session(entries, fewer, k, delivery);
        let at = choose|at: int| 0 <= at < before.len() && before[at] == delivery;
        assert(refreshes_of(entries, names)[at] == delivery);
    } else {
        let at = choose|at: int| 0 <= at < last.len() && last[at] == delivery;
        assert(refreshes_of(entries, names)[before.len() + at] == delivery);
    }
}

/// A queue speaks for its own client: it is served while the client of the pid has the
/// id of the queue and is not closing, and may write what that client may.
pub proof fn a_queue_speaks_for_its_own_client(
    state: ActiveControlState,
    store: SessionStore,
    identity: ControlClientIdentity,
    client: ActiveControl,
    queued: Option<u64>,
)
    requires
        state.client(identity.pid()) == Some(client),
    ensures
        state.serves_queue(identity.pid(), queued) == match queued {
            Some(id) => client.id == id && !client.closing,
            None => true,
        },
        client.id != identity.id() || client.closing ==> state.queue_access(store, identity) is None,
        client.id == identity.id() && !client.closing && client.session_name is None
            && client.session_id is None ==> state.queue_access(store, identity) == Some(
            client.can_write,
        ),
{
}

/// Errors of the configuration are told one after another, in order.
pub proof fn errors_are_told_in_order(
    errors: Seq<(RmuxError, String)>,
    error: RmuxError,
    words: String,
)
    ensures
        all_config_error_texts(errors.push((error, words))) == all_config_error_texts(errors)
            + config_error_texts(error, words@),
        all_config_error_texts(seq![]).len() == 0,
{
    assert(errors.push((error, words)).drop_last() =~= errors);
}

/// A place in the table is the first one with the pid.
pub proof fn a_client_is_found_by_its_pid(
    entries: Seq<ControlEntry>,
    entry: ControlEntry,
    pid: u32,
)
    ensures
        entry_at(seq![entry] + entries, pid) == if entry.pid == pid {
            Some(0int)
        } else {
            match entry_at(entries, pid) {
                Some(at) => Some(at + 1),
                None => None,
            }
        },
        entry_at(seq![], pid) is None,
{
    let all = seq![entry] + entries;
    assert(all[0] == entry);
    assert(all.subrange(1, all.len() as int) =~= entries);
}

} // verus!
