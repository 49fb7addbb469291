//! Subscriptions to the state of a pane: its title, its options and the program in
//! its foreground.
//!
//! The journal of changes, the screens and the probes of foreground programs are
//! the caller's; what they answer is handed in.
use crate::control_events;
use crate::error;
use crate::error::{ErrorModel, RmuxError};
use crate::pane_by_id;
use crate::pane_by_id::{resolve_pane_id, resolve_pane_target_ref, PaneTargetRef, PlaceModel};
use crate::pane_options::OptionChange;
use crate::sessions;
use crate::sessions::{PaneTarget, SessionStore};
use crate::text;
use vstd::prelude::*;

verus! {

/// How many panes are probed in one round.
pub const FOREGROUND_MAX_PANES_PER_TICK: usize = 32;

/// What a subscription is about.
#[derive(Debug, Clone, Copy, PartialEq, Eq, Structural)]
pub struct PaneStateInclude {
    pub title: bool,
    pub options: bool,
    pub foreground: bool,
}

/// An option of a pane.
#[derive(Debug, PartialEq, Eq)]
pub struct PaneOptionEntry {
    pub name: String,
    pub value: String,
}

/// The program in the foreground of a pane.
#[derive(Debug, PartialEq, Eq)]
pub struct ForegroundState {
    pub pid: Option<u32>,
    pub command: Option<String>,
    pub cwd: Option<String>,
}

/// The program as a value.
pub type ForegroundModel = (Option<u32>, Option<Seq<char>>, Option<Seq<char>>);

impl View for ForegroundState {
    type V = ForegroundModel;

    open spec fn view(&self) -> ForegroundModel {
        (
            self.pid,
            control_events::optional_text(self.command),
            control_events::optional_text(self.cwd),
        )
    }
}

impl Clone for ForegroundState {
    fn clone(&self) -> (copy: Self)
        ensures
            copy@ == self@,
    {
        ForegroundState {
            pid: self.pid,
            command: match &self.command {
                Some(command) => Some(command.clone()),
                None => None,
            },
            cwd: match &self.cwd {
                Some(cwd) => Some(cwd.clone()),
                None => None,
            },
        }
    }
}

/// The state of a pane when a subscription starts, or after it fell behind.
#[derive(Debug, PartialEq, Eq)]
pub struct PaneStateSnapshot {
    pub revision: u64,
    pub title: Option<String>,
    pub options: Vec<PaneOptionEntry>,
    pub foreground: Option<ForegroundState>,
}

/// A change of a pane's options.
#[derive(Debug, PartialEq, Eq)]
pub enum PaneOptionStateChange {
    OptionSet { name: String, old: Option<String>, new: String },
    OptionUnset { name: String, old: Option<String> },
}

/// What is done to the journal, in order.
#[derive(Debug, Clone, Copy, PartialEq, Eq, Structural)]
pub enum JournalEffect {
    Push { pane_id: u32 },
    MarkPaneClosed { pane_id: u32 },
    RemoveConnection { connection_id: u64 },
    NotifyWaiters,
}

/// The journal behind a lock. A holder of the lock that failed leaves the journal
/// as it is, and it is used on.
pub fn lock_pane_state_journal<J>(lock: Result<J, J>) -> (journal: J)
    ensures
        match lock {
            Ok(held) => journal == held,
            Err(held) => journal == held,
        },
{
    match lock {
        Ok(journal) => journal,
        Err(journal) => journal,
    }
}

/// The pane that a request is about.
pub open spec fn subscribed_pane(store: SessionStore, target: PaneTargetRef) -> Result<
    (sessions::PanePlace, u32),
    ErrorModel,
> {
    match pane_by_id::resolved(store, target) {
        PlaceModel::Refused(refusal) => Err(refusal),
        PlaceModel::Found(place) => match pane_by_id::pane_id_at(store, place) {
            Some(id) => Ok((place, id)),
            None => Err(
                ErrorModel::InvalidTarget {
                    value: sessions::pane_place_text(place),
                    reason: "pane index does not exist in session"@,
                },
            ),
        },
    }
}

/// The id of the pane at a place.
pub fn pane_id_for_target(store: &SessionStore, target: &PaneTarget) -> (id: Result<
    u32,
    RmuxError,
>)
    ensures
        match pane_by_id::pane_id_at(*store, target@) {
            Some(found) => id == Ok::<u32, RmuxError>(found),
            None => id matches Err(error) && error@ == (ErrorModel::InvalidTarget {
                value: sessions::pane_place_text(target@),
                reason: "pane index does not exist in session"@,
            }),
        },
{
    match pane_by_id::pane_id_for_select_target(store, target) {
        Some(id) => Ok(id),
        None => {
            let value = target.to_text();
            Err(error::invalid_target(value.as_str(), "pane index does not exist in session"))
        },
    }
}

/// The pane that a subscription is made for: its place and its id.
pub fn handle_subscribe_pane_state(store: &SessionStore, target: &PaneTargetRef) -> (pane: Result<
    (PaneTarget, u32),
    RmuxError,
>)
    ensures
        match (pane, subscribed_pane(*store, *target)) {
            (Ok((target, id)), Ok((place, expected))) => target@ == place && id == expected,
            (Err(error), Err(refusal)) => error@ == refusal,
            _ => false,
        },
{
    let target = match resolve_pane_target_ref(store, target) {
        Ok(target) => target,
        Err(error) => {
            return Err(error);
        },
    };
    match pane_id_for_target(store, &target) {
        Ok(id) => Ok((target, id)),
        Err(error) => Err(error),
    }
}

/// The state of a pane, as far as a subscription is about it. `title` is that of
/// the pane's screen, if it has one still; `options` are those set for the pane.
/// The program in the foreground is put in once it was probed.
pub fn pane_state_snapshot_locked(
    included: PaneStateInclude,
    revision: u64,
    title: Option<String>,
    options: Vec<PaneOptionEntry>,
) -> (snapshot: PaneStateSnapshot)
    ensures
        snapshot.revision == revision,
        snapshot.foreground is None,
        control_events::optional_text(snapshot.title) == if included.title {
            match title {
                Some(title) => Some(title@),
                None => Some(Seq::empty()),
            }
        } else {
            None
        },
        snapshot.options@ == if included.options {
            options@
        } else {
            Seq::empty()
        },
{
    PaneStateSnapshot {
        revision,
        title: if included.title {
            match title {
                Some(title) => Some(title),
                None => Some(String::new()),
            }
        } else {
            None
        },
        options: if included.options {
            options
        } else {
            Vec::new()
        },
        foreground: None,
    }
}

/// Some session has the pane with the id `pane_id`, and it is at `place` in it.
pub open spec fn pane_is_at(
    store: SessionStore,
    pane_id: u32,
    at: int,
    place: sessions::PanePlace,
) -> bool {
    0 <= at < store.sessions@.len() && pane_by_id::place_of_pane(
        store,
        store.sessions@[at].name@,
        pane_id,
    ) == PlaceModel::Found(place)
}

/// One of the first `upto` sessions has the pane with the id `pane_id` at `place`.
pub open spec fn some_session_has(
    store: SessionStore,
    pane_id: u32,
    upto: int,
    place: sessions::PanePlace,
) -> bool {
    exists|at: int| at < upto && #[trigger] pane_is_at(store, pane_id, at, place)
}

/// `best` is where the pane with the id `pane_id` is in the first session by name
/// that has it, of the first `upto` sessions.
pub open spec fn first_place(
    store: SessionStore,
    pane_id: u32,
    upto: int,
    best: Option<sessions::PanePlace>,
) -> bool {
    match best {
        Some(found) => some_session_has(store, pane_id, upto, found) && forall|
            place: sessions::PanePlace,
        | #[trigger]
            some_session_has(store, pane_id, upto, place) ==> !text::text_before(place.0, found.0),
        None => forall|place: sessions::PanePlace|
            !#[trigger] some_session_has(store, pane_id, upto, place),
    }
}

/// A place that may be missing, as a value.
pub open spec fn place_of(target: Option<PaneTarget>) -> Option<sessions::PanePlace> {
    match target {
        Some(target) => Some(target@),
        None => None,
    }
}

/// Where the pane with the id `pane_id` is, in the first session by name that has
/// it.
pub fn pane_target_for_pane_id(store: &SessionStore, pane_id: u32) -> (target: Option<PaneTarget>)
    ensures
        first_place(*store, pane_id, store.sessions@.len() as int, place_of(target)),
{
    let mut best: Option<PaneTarget> = None;
    let mut i: usize = 0;
    while i < store.sessions.len()
        invariant
            i <= store.sessions@.len(),
            first_place(*store, pane_id, i as int, place_of(best)),
        decreases store.sessions.len() - i,
    {
        let ghost before = place_of(best);
        let found = resolve_pane_id(store, store.sessions[i].name.as_str(), pane_id);
        proof {
            assert forall|place: sessions::PanePlace| #[trigger]
                some_session_has(*store, pane_id, i + 1, place) == (some_session_has(
                    *store,
                    pane_id,
                    i as int,
                    place,
                ) || (found is Ok && place == found->Ok_0@)) by {
                if some_session_has(*store, pane_id, i as int, place) {
                    let at = choose|at: int|
                        at < i && #[trigger] pane_is_at(*store, pane_id, at, place);
                    assert(at < i + 1 && pane_is_at(*store, pane_id, at, place));
                }
                if found is Ok && place == found->Ok_0@ {
                    assert(pane_is_at(*store, pane_id, i as int, place));
                }
            }
        }
        match found {
            Ok(target) => {
                let better = match &best {
                    Some(best) => text::is_before(
                        target.session_name.as_str(),
                        best.session_name.as_str(),
                    ),
                    None => true,
                };
                proof {
                    text::lemma_text_order(target@.0, target@.0, target@.0);
                    if better {
                        assert forall|place: sessions::PanePlace| #[trigger]
                            some_session_has(
                                *store,
                                pane_id,
                                i + 1,
                                place,
                            ) implies !text::text_before(place.0, target@.0) by {
                            if before is Some {
                                let first = before->0;
                                text::lemma_text_order(place.0, target@.0, first.0);
                            }
                        }
                    }
                }
                if better {
                    best = Some(target);
                }
            },
            Err(_) => {},
        }
        i = i + 1;
    }
    best
}

/// The most events that are read at once: as many as asked for, `batch` at most.
pub open spec fn cursor_limit(requested: Option<u16>, batch: usize) -> Option<usize> {
    match requested {
        Some(value) => if value == 0 {
            None
        } else if value as usize <= batch {
            Some(value as usize)
        } else {
            Some(batch)
        },
        None => Some(batch),
    }
}

/// The most events that are read at once.
pub fn state_cursor_limit(requested: Option<u16>, batch: usize) -> (limit: Result<usize, RmuxError>)
    ensures
        match cursor_limit(requested, batch) {
            Some(expected) => limit == Ok::<usize, RmuxError>(expected),
            None => limit matches Err(error) && error@ == ErrorModel::Server(
                "pane state cursor max_events must be greater than zero"@,
            ),
        },
{
    match requested {
        Some(value) => {
            if value == 0 {
                Err(error::server_error("pane state cursor max_events must be greater than zero"))
            } else if (value as usize) < batch {
                Ok(value as usize)
            } else {
                Ok(batch)
            }
        },
        None => Ok(batch),
    }
}

/// What a read of the journal came to.
#[derive(Debug, Clone, Copy, PartialEq, Eq, Structural)]
pub enum PaneStateRead {
    /// All was read up to `next_revision`; `event_count` events are for the
    /// subscription.
    Ready { next_revision: u64, event_count: usize },
    /// Events that were not read yet are gone.
    Lag { missed_from_revision: u64, resume_revision: u64 },
}

/// What follows a read of the journal.
#[derive(Debug, PartialEq, Eq)]
pub enum PaneStateCursorStep {
    /// The events that were read are the answer.
    Answer { next_revision: u64 },
    /// Wait for a change and read again. Where none comes in time the answer is no
    /// events, and `next_revision`: events that are not for the subscription are
    /// not read again.
    Wait { next_revision: u64 },
    /// The answer is the state of the pane.
    Rebase { missed_from_revision: u64, resume_revision: u64 },
    Refused(RmuxError),
}

/// What follows a read of the journal. `wait` is whether the request waits for an
/// event.
pub fn handle_pane_state_cursor(read: Result<PaneStateRead, String>, wait: bool) -> (step:
    PaneStateCursorStep)
    ensures
        match read {
            Ok(PaneStateRead::Ready { next_revision, event_count }) => if event_count > 0 || !wait {
                step == (PaneStateCursorStep::Answer { next_revision })
            } else {
                step == (PaneStateCursorStep::Wait { next_revision })
            },
            Ok(PaneStateRead::Lag { missed_from_revision, resume_revision }) => step == (
            PaneStateCursorStep::Rebase { missed_from_revision, resume_revision }),
            Err(message) => step matches PaneStateCursorStep::Refused(error) && error@
                == ErrorModel::Server(message@),
        },
{
    match read {
        Ok(PaneStateRead::Ready { next_revision, event_count }) => {
            if event_count > 0 || !wait {
                PaneStateCursorStep::Answer { next_revision }
            } else {
                PaneStateCursorStep::Wait { next_revision }
            }
        },
        Ok(PaneStateRead::Lag { missed_from_revision, resume_revision }) => {
            PaneStateCursorStep::Rebase { missed_from_revision, resume_revision }
        },
        Err(message) => PaneStateCursorStep::Refused(RmuxError::Server(message)),
    }
}

/// A subscription in the journal.
#[derive(Debug, Clone, Copy, PartialEq, Eq, Structural)]
pub struct SubscriptionInfo {
    pub pane_id: u32,
    pub included: PaneStateInclude,
}

/// Why there is no state for a subscription.
pub open spec fn subscription_refusal(info: Result<Option<SubscriptionInfo>, String>) -> Option<
    ErrorModel,
> {
    match info {
        Err(message) => Some(ErrorModel::Server(message@)),
        Ok(None) => Some(ErrorModel::Server("subscription not found"@)),
        Ok(Some(_)) => None,
    }
}

/// The subscription that a state is asked for, and where its pane is. A pane that
/// is gone by then is no reason to refuse: its state is that of a pane without
/// screen and options, at the revision that the journal has come to.
pub fn snapshot_for_subscription(
    store: &SessionStore,
    info: Result<Option<SubscriptionInfo>, String>,
) -> (subscription: Result<(SubscriptionInfo, Option<PaneTarget>), RmuxError>)
    ensures
        match subscription_refusal(info) {
            Some(refusal) => subscription matches Err(error) && error@ == refusal,
            None => {
                &&& subscription matches Ok((found, target))
                &&& info == Ok::<Option<SubscriptionInfo>, String>(Some(found))
                &&& first_place(
                    *store,
                    found.pane_id,
                    store.sessions@.len() as int,
                    place_of(target),
                )
            },
        },
{
    match info {
        Err(message) => Err(RmuxError::Server(message)),
        Ok(None) => Err(error::server_error("subscription not found")),
        Ok(Some(info)) => {
            let target = pane_target_for_pane_id(store, info.pane_id);
            Ok((info, target))
        },
    }
}

/// The answer to a request that ends a subscription: whether there was one.
pub fn handle_unsubscribe_pane_state(removed: Result<bool, String>) -> (result: Result<
    bool,
    RmuxError,
>)
    ensures
        match removed {
            Ok(removed) => result == Ok::<bool, RmuxError>(removed),
            Err(message) => result matches Err(error) && error@ == ErrorModel::Server(message@),
        },
{
    match removed {
        Ok(removed) => Ok(removed),
        Err(message) => Err(RmuxError::Server(message)),
    }
}

/// What a change of a pane does to the journal; `closes` is whether the pane is
/// closed by it.
pub fn record_pane_state_change(pane_id: u32, closes: bool) -> (effects: Vec<JournalEffect>)
    ensures
        effects@ == if closes {
            seq![
                JournalEffect::Push { pane_id },
                JournalEffect::MarkPaneClosed { pane_id },
                JournalEffect::NotifyWaiters,
            ]
        } else {
            seq![JournalEffect::Push { pane_id }, JournalEffect::NotifyWaiters]
        },
{
    let mut effects: Vec<JournalEffect> = Vec::new();
    effects.push(JournalEffect::Push { pane_id });
    if closes {
        effects.push(JournalEffect::MarkPaneClosed { pane_id });
    }
    effects.push(JournalEffect::NotifyWaiters);
    effects
}

/// What the end of a connection does to the journal: its subscriptions go, and
/// who waits for an event looks again.
pub fn cleanup_connection_pane_state_subscriptions_sync(connection_id: u64) -> (effects: Vec<
    JournalEffect,
>)
    ensures
        effects@ == seq![
            JournalEffect::RemoveConnection { connection_id },
            JournalEffect::NotifyWaiters,
        ],
{
    let mut effects: Vec<JournalEffect> = Vec::new();
    effects.push(JournalEffect::RemoveConnection { connection_id });
    effects.push(JournalEffect::NotifyWaiters);
    effects
}

/// What is recorded of a change of an option: nothing where the option is as it
/// was.
pub fn record_pane_option_mutation(change: OptionChange) -> (recorded: Option<
    PaneOptionStateChange,
>)
    ensures
        recorded == if !change.changed {
            None
        } else {
            match change.new_value {
                Some(new) => Some(
                    PaneOptionStateChange::OptionSet {
                        name: change.name,
                        old: change.old_value,
                        new,
                    },
                ),
                None => Some(
                    PaneOptionStateChange::OptionUnset { name: change.name, old: change.old_value },
                ),
            }
        },
{
    if !change.changed {
        return None;
    }
    match change.new_value {
        Some(new) => Some(
            PaneOptionStateChange::OptionSet { name: change.name, old: change.old_value, new },
        ),
        None => Some(
            PaneOptionStateChange::OptionUnset { name: change.name, old: change.old_value },
        ),
    }
}

fn same_optional_text(a: &Option<String>, b: &Option<String>) -> (same: bool)
    ensures
        same == (control_events::optional_text(*a) == control_events::optional_text(*b)),
{
    match (a, b) {
        (Some(a), Some(b)) => text::same_text(a.as_str(), b.as_str()),
        (None, None) => true,
        _ => false,
    }
}

/// Whether another program is in the foreground, or the same one elsewhere.
pub fn foreground_state_changed(previous: &ForegroundState, next: &ForegroundState) -> (changed:
    bool)
    ensures
        changed == (previous@ != next@),
{
    previous.pid != next.pid || !same_optional_text(&previous.command, &next.command)
        || !same_optional_text(&previous.cwd, &next.cwd)
}

/// The panes that are probed in one round.
pub fn foreground_panes_of_tick(pane_ids: &Vec<u32>) -> (probed: Vec<u32>)
    ensures
        probed@ == if pane_ids@.len() <= FOREGROUND_MAX_PANES_PER_TICK {
            pane_ids@
        } else {
            pane_ids@.take(FOREGROUND_MAX_PANES_PER_TICK as int)
        },
{
    let mut probed: Vec<u32> = Vec::new();
    let mut i: usize = 0;
    while i < pane_ids.len() && i < FOREGROUND_MAX_PANES_PER_TICK
        invariant
            i <= pane_ids@.len(),
            i <= FOREGROUND_MAX_PANES_PER_TICK,
            probed@ == pane_ids@.take(i as int),
        decreases pane_ids.len() - i,
    {
        probed.push(pane_ids[i]);
        i = i + 1;
        assert(probed@ =~= pane_ids@.take(i as int));
    }
    assert(i == pane_ids@.len() ==> pane_ids@.take(i as int) =~= pane_ids@);
    probed
}

/// What was in the foreground of a pane when it was probed last, and in which
/// generation of the pane.
#[derive(Debug, PartialEq, Eq)]
pub struct ProbedForeground {
    pub pane_id: u32,
    pub generation: u64,
    pub state: ForegroundState,
}

/// What was in the foreground of each pane when it was probed last.
#[derive(Debug, PartialEq, Eq)]
pub struct ForegroundCache {
    pub probes: Vec<ProbedForeground>,
}

/// What is known of a pane: the first probe of it in the list.
pub open spec fn last_probe(probes: Seq<ProbedForeground>, pane_id: u32) -> Option<
    (u64, ForegroundModel),
>
    decreases probes.len(),
{
    if probes.len() == 0 {
        None
    } else if probes[0].pane_id == pane_id {
        Some((probes[0].generation, probes[0].state@))
    } else {
        last_probe(probes.subrange(1, probes.len() as int), pane_id)
    }
}

proof fn lemma_last_probe_skips(probes: Seq<ProbedForeground>, pane_id: u32, at: int)
    requires
        0 <= at <= probes.len(),
        forall|j: int| 0 <= j < at ==> (#[trigger] probes[j]).pane_id != pane_id,
    ensures
        last_probe(probes, pane_id) == last_probe(
            probes.subrange(at, probes.len() as int),
            pane_id,
        ),
    decreases at,
{
    if at == 0 {
        assert(probes.subrange(0, probes.len() as int) =~= probes);
    } else {
        let rest = probes.subrange(1, probes.len() as int);
        assert(probes[0].pane_id != pane_id);
        assert forall|j: int| 0 <= j < at - 1 implies (#[trigger] rest[j]).pane_id != pane_id by {
            assert(rest[j] == probes[j + 1]);
        }
        lemma_last_probe_skips(rest, pane_id, at - 1);
        assert(rest.subrange(at - 1, rest.len() as int) =~= probes.subrange(
            at,
            probes.len() as int,
        ));
    }
}

proof fn lemma_last_probe_replaced(
    probes: Seq<ProbedForeground>,
    at: int,
    probe: ProbedForeground,
    other: u32,
)
    requires
        0 <= at <= probes.len(),
        at < probes.len() ==> probes[at].pane_id == probe.pane_id,
        other != probe.pane_id,
    ensures
        last_probe(
            if at < probes.len() {
                probes.update(at, probe)
            } else {
                probes.push(probe)
            },
            other,
        ) == last_probe(probes, other),
    decreases probes.len(),
{
    let after = if at < probes.len() {
        probes.update(at, probe)
    } else {
        probes.push(probe)
    };
    let rest = after.subrange(1, after.len() as int);
    if probes.len() == 0 {
        assert(after[0] == probe);
        assert(rest =~= Seq::<ProbedForeground>::empty());
        assert(last_probe(rest, other) is None);
    } else {
        let tail = probes.subrange(1, probes.len() as int);
        if at == 0 {
            assert(after[0] == probe);
            assert(rest =~= tail);
        } else {
            assert(after[0] == probes[0]);
            if at < probes.len() {
                assert(tail[at - 1] == probes[at]);
                lemma_last_probe_replaced(tail, at - 1, probe, other);
                assert(rest =~= tail.update(at - 1, probe));
            } else {
                lemma_last_probe_replaced(tail, at - 1, probe, other);
                assert(rest =~= tail.push(probe));
            }
        }
    }
}

impl ForegroundCache {
    /// Nothing was probed yet.
    pub fn new() -> (cache: Self)
        ensures
            forall|pane_id: u32| #[trigger] last_probe(cache.probes@, pane_id) is None,
    {
        ForegroundCache { probes: Vec::new() }
    }

    /// Remembers what is in the foreground of a pane, and hands out what was there
    /// before where that is a change within one generation of the pane. The first
    /// probe of a pane, or of a new generation, is no change.
    pub fn observe(&mut self, pane_id: u32, generation: u64, next: ForegroundState) -> (previous:
        Option<ForegroundState>)
        ensures
            match last_probe(old(self).probes@, pane_id) {
                Some((known, state)) => if known == generation && state != next@ {
                    previous matches Some(previous) && previous@ == state
                } else {
                    previous is None
                },
                None => previous is None,
            },
            last_probe(final(self).probes@, pane_id) == Some((generation, next@)),
            forall|other: u32|
                other != pane_id ==> #[trigger] last_probe(final(self).probes@, other)
                    == last_probe(old(self).probes@, other),
    {
        let ghost all = self.probes@;
        let mut at: usize = 0;
        while at < self.probes.len() && self.probes[at].pane_id != pane_id
            invariant
                at <= self.probes@.len(),
                self.probes@ == all,
                forall|j: int| 0 <= j < at ==> (#[trigger] all[j]).pane_id != pane_id,
            decreases self.probes.len() - at,
        {
            at = at + 1;
        }
        let ghost rest = all.subrange(at as int, all.len() as int);
        proof {
            lemma_last_probe_skips(all, pane_id, at as int);
            if at < all.len() {
                assert(rest[0] == all[at as int]);
            }
        }
        let probe = ProbedForeground { pane_id, generation, state: next };
        let ghost replaced = if at < all.len() {
            all.update(at as int, probe)
        } else {
            all.push(probe)
        };
        proof {
            assert forall|other: u32| other != pane_id implies #[trigger] last_probe(
                replaced,
                other,
            ) == last_probe(all, other) by {
                lemma_last_probe_replaced(all, at as int, probe, other);
            }
        }
        let mut previous: Option<ForegroundState> = None;
        if at < self.probes.len() {
            let known = &self.probes[at];
            if known.generation == generation && foreground_state_changed(
                &known.state,
                &probe.state,
            ) {
                previous = Some(known.state.clone());
            }
            self.probes.set(at, probe);
        } else {
            self.probes.push(probe);
        }
        proof {
            let after = self.probes@;
            assert(after == replaced);
            assert forall|j: int| 0 <= j < at implies (#[trigger] after[j]).pane_id
                != pane_id by {
                assert(after[j] == all[j]);
            }
            lemma_last_probe_skips(after, pane_id, at as int);
            let tail = after.subrange(at as int, after.len() as int);
            assert(tail[0] == probe);
        }
        previous
    }
}

/// Whether the watch of foreground programs is started now: it is not while it
/// runs.
pub fn start_foreground_watch_if_needed(started: &mut bool) -> (starts: bool)
    ensures
        starts == !*old(started),
        *final(started),
{
    let starts = !*started;
    *started = true;
    starts
}

/// Whether the watch of foreground programs goes on: while someone is subscribed.
/// Where it does not, it may be started anew.
pub fn foreground_watch_continues(started: &mut bool, subscription_count: usize) -> (continues:
    bool)
    ensures
        continues == (subscription_count > 0),
        *final(started) == (*old(started) && continues),
{
    if subscription_count == 0 {
        *started = false;
        return false;
    }
    true
}

/// What is in the foreground of a pane.
#[derive(Debug, PartialEq, Eq)]
pub struct PaneForegroundStateResponse {
    pub pane_id: u32,
    pub revision: u64,
    pub state: Option<ForegroundState>,
}

/// The answer to a request for what is in the foreground of a pane. `probed` is the
/// pane's id and what a probe of it found, `revision` what the journal has come to.
pub fn handle_pane_foreground_state(
    store: &SessionStore,
    target: &PaneTargetRef,
    probed: Result<(u32, ForegroundState), RmuxError>,
    revision: u64,
) -> (result: Result<PaneForegroundStateResponse, RmuxError>)
    ensures
        match (pane_by_id::resolved(*store, *target), probed) {
            (PlaceModel::Refused(refusal), _) => result matches Err(error) && error@ == refusal,
            (PlaceModel::Found(_), Err(refusal)) => result matches Err(error) && error@
                == refusal@,
            (PlaceModel::Found(_), Ok((pane_id, state))) => result == Ok::<
                PaneForegroundStateResponse,
                RmuxError,
            >(PaneForegroundStateResponse { pane_id, revision, state: Some(state) }),
        },
{
    match resolve_pane_target_ref(store, target) {
        Err(error) => Err(error),
        Ok(_) => match probed {
            Err(error) => Err(error),
            Ok((pane_id, state)) => Ok(
                PaneForegroundStateResponse { pane_id, revision, state: Some(state) },
            ),
        },
    }
}

/// As many events are read as are asked for, up to a batch, and a batch where nothing
/// is asked for; asking for none is refused.
pub proof fn a_read_keeps_to_its_batch(
    requested: Option<u16>,
    batch: usize,
    limit: Result<usize, RmuxError>,
)
    requires
        call_ensures(state_cursor_limit, (requested, batch), limit),
    ensures
        requested is None ==> limit == Ok::<usize, RmuxError>(batch),
        requested matches Some(value) ==> {
            &&& value == 0 ==> (limit matches Err(error) && error@ == ErrorModel::Server(
                "pane state cursor max_events must be greater than zero"@,
            ))
            &&& 0 < value <= batch ==> (limit matches Ok(given) && given == value)
            &&& value > batch && value > 0 ==> limit == Ok::<usize, RmuxError>(batch)
        },
{
}

/// The first thirty-two panes are probed in one round, in order, and all where there are
/// no more.
pub proof fn a_round_probes_thirty_two_panes(pane_ids: Vec<u32>, probed: Vec<u32>, i: int)
    requires
        call_ensures(foreground_panes_of_tick, (&pane_ids,), probed),
        0 <= i < probed@.len(),
    ensures
        pane_ids@.len() <= 32 ==> probed@.len() == pane_ids@.len(),
        pane_ids@.len() > 32 ==> probed@.len() == 32,
        probed@[i] == pane_ids@[i],
{
}

/// A subscription is made for the pane that is at the place that is meant, and refused
/// where there is none.
pub proof fn a_subscription_is_for_the_pane_that_is_meant(
    store: SessionStore,
    target: PaneTarget,
    pane: Result<(PaneTarget, u32), RmuxError>,
)
    requires
        call_ensures(handle_subscribe_pane_state, (&store, &PaneTargetRef::Slot(target)), pane),
    ensures
        match pane_by_id::pane_id_at(store, target@) {
            Some(id) => pane matches Ok((found, found_id)) && found@ == target@ && found_id == id,
            None => pane matches Err(error) && error@ == (ErrorModel::InvalidTarget {
                value: target.session_name@ + ":"@ + text::decimal(target.window_index as nat) + "."@
                    + text::decimal(target.pane_index as nat),
                reason: "pane index does not exist in session"@,
            }),
        },
{
}

/// A pane that is looked for by its id is found in the first session by name that has
/// it, and not found only where no session has it.
pub proof fn a_pane_is_found_in_the_first_session_by_name(
    store: SessionStore,
    pane_id: u32,
    target: Option<PaneTarget>,
    at: int,
    place: sessions::PanePlace,
)
    requires
        call_ensures(pane_target_for_pane_id, (&store, pane_id), target),
        0 <= at < store.sessions@.len(),
        pane_by_id::place_of_pane(store, store.sessions@[at].name@, pane_id) == PlaceModel::Found(
            place,
        ),
    ensures
        target matches Some(found) && !text::text_before(place.0, found@.0),
{
    assert(pane_is_at(store, pane_id, at, place));
    assert(some_session_has(store, pane_id, store.sessions@.len() as int, place));
}

/// What is found has the pane: it is its place in one of the sessions.
pub proof fn what_is_found_has_the_pane(
    store: SessionStore,
    pane_id: u32,
    target: PaneTarget,
)
    requires
        call_ensures(pane_target_for_pane_id, (&store, pane_id), Some(target)),
    ensures
        exists|at: int|
            0 <= at < store.sessions@.len() && pane_by_id::place_of_pane(
                store,
                (#[trigger] store.sessions@[at]).name@,
                pane_id,
            ) == PlaceModel::Found(target@),
{
    assert(some_session_has(store, pane_id, store.sessions@.len() as int, target@));
    let at = choose|at: int|
        at < store.sessions@.len() && #[trigger] pane_is_at(store, pane_id, at, target@);
    assert(store.sessions@[at].name@ == store.sessions@[at].name@);
}

/// State is asked for of a subscription that is there; of another it is refused, and so
/// it is where the journal refuses, in its words.
pub proof fn state_needs_a_subscription(message: String, info: SubscriptionInfo)
    ensures
        subscription_refusal(Err(message)) == Some(ErrorModel::Server(message@)),
        subscription_refusal(Ok(None)) == Some(ErrorModel::Server("subscription not found"@)),
        subscription_refusal(Ok(Some(info))) is None,
{
}

/// What is known of a pane is what was found out of it, and of no other pane.
pub proof fn a_probe_is_of_its_own_pane(
    probes: Seq<ProbedForeground>,
    probe: ProbedForeground,
    other: u32,
)
    ensures
        last_probe(seq![probe] + probes, probe.pane_id) == Some((probe.generation, probe.state@)),
        other != probe.pane_id ==> last_probe(seq![probe] + probes, other) == last_probe(
            probes,
            other,
        ),
        last_probe(seq![], other) is None,
{
    let all = seq![probe] + probes;
    assert(all[0] == probe);
    assert(all.subrange(1, all.len() as int) =~= probes);
}

} // verus!
