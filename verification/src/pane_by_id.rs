//! Requests for a pane that is named by its place or by its lasting id.
use crate::bytes;
use crate::error::{ErrorModel, RmuxError};
use crate::sessions;
use crate::sessions::{PanePlace, PaneTarget, SessionStore};
use crate::text;
use crate::windows_console_sequence::{ConsoleAction, ConsoleInput};
use vstd::prelude::*;

verus! {

/// A pane by its place, or by its id within a session.
#[derive(Debug, PartialEq, Eq)]
pub enum PaneTargetRef {
    Slot(PaneTarget),
    Id { session_name: String, pane_id: u32 },
}

impl PaneTargetRef {
    /// The name of the session.
    pub open spec fn session(&self) -> Seq<char> {
        match self {
            PaneTargetRef::Slot(target) => target.session_name@,
            PaneTargetRef::Id { session_name, .. } => session_name@,
        }
    }

    /// The name of the session.
    pub fn session_name(&self) -> (name: &str)
        ensures
            name@ == self.session(),
    {
        match self {
            PaneTargetRef::Slot(target) => target.session_name.as_str(),
            PaneTargetRef::Id { session_name, .. } => session_name.as_str(),
        }
    }
}

/// A pane's place, or why there is none.
pub enum PlaceModel {
    Found(PanePlace),
    Refused(ErrorModel),
}

/// Where the pane with the id `pane_id` of a session is.
pub open spec fn place_of_pane(store: SessionStore, name: Seq<char>, pane_id: u32) -> PlaceModel {
    let absent = PlaceModel::Refused(ErrorModel::PaneNotFound { session_name: name, pane_id });
    match store.session_spec(name) {
        None => PlaceModel::Refused(ErrorModel::SessionNotFound(name)),
        Some(session) => match session.window_of_pane_spec(pane_id) {
            None => absent,
            Some(holder) => match session.window_spec(holder.index) {
                None => absent,
                Some(window) => match sessions::pane_with_id(window.panes@, pane_id) {
                    None => absent,
                    Some(pane) => PlaceModel::Found((name, holder.index, pane.index)),
                },
            },
        },
    }
}

/// Where a request's pane is. A place is taken as it is given.
pub open spec fn resolved(store: SessionStore, target: PaneTargetRef) -> PlaceModel {
    match target {
        PaneTargetRef::Slot(target) => PlaceModel::Found(target@),
        PaneTargetRef::Id { session_name, pane_id } => place_of_pane(
            store,
            session_name@,
            pane_id,
        ),
    }
}

/// A result as a value.
pub open spec fn place_model(result: Result<PaneTarget, RmuxError>) -> PlaceModel {
    match result {
        Ok(target) => PlaceModel::Found(target@),
        Err(error) => PlaceModel::Refused(error@),
    }
}

fn pane_absent(session_name: &str, pane_id: u32) -> (error: RmuxError)
    ensures
        error@ == (ErrorModel::PaneNotFound { session_name: session_name@, pane_id }),
{
    RmuxError::PaneNotFound { session_name: session_name.to_owned(), pane_id }
}

/// Where the pane with the id `pane_id` of a session is.
pub fn resolve_pane_id(store: &SessionStore, session_name: &str, pane_id: u32) -> (result: Result<
    PaneTarget,
    RmuxError,
>)
    ensures
        place_model(result) == place_of_pane(*store, session_name@, pane_id),
{
    let session = match store.session(session_name) {
        Some(session) => session,
        None => {
            return Err(RmuxError::SessionNotFound(session_name.to_owned()));
        },
    };
    let window_index: u32 = match session.window_of_pane(pane_id) {
        Some(holder) => holder.index,
        None => {
            return Err(pane_absent(session_name, pane_id));
        },
    };
    match session.window_at(window_index) {
        Some(window) => match window.pane_by_id(pane_id) {
            Some(pane) => Ok(
                PaneTarget {
                    session_name: session_name.to_owned(),
                    window_index,
                    pane_index: pane.index,
                },
            ),
            None => Err(pane_absent(session_name, pane_id)),
        },
        None => Err(pane_absent(session_name, pane_id)),
    }
}

/// Where a request's pane is.
pub fn resolve_pane_target_ref(store: &SessionStore, target: &PaneTargetRef) -> (result: Result<
    PaneTarget,
    RmuxError,
>)
    ensures
        place_model(result) == resolved(*store, *target),
{
    match target {
        PaneTargetRef::Slot(target) => Ok(target.clone()),
        PaneTargetRef::Id { session_name, pane_id } => resolve_pane_id(
            store,
            session_name.as_str(),
            *pane_id,
        ),
    }
}

/// The bytes of texts, one after another.
pub open spec fn literal_bytes(keys: Seq<Seq<char>>) -> Seq<u8>
    decreases keys.len(),
{
    if keys.len() == 0 {
        Seq::empty()
    } else {
        literal_bytes(keys.drop_last()) + vstd::utf8::encode_utf8(keys.last())
    }
}

fn literal_key_bytes(keys: &Vec<String>) -> (out: Vec<u8>)
    ensures
        out@ == literal_bytes(text::views(keys@)),
{
    let mut out: Vec<u8> = Vec::new();
    let mut i: usize = 0;
    let ghost all = text::views(keys@);
    assert(all.take(0) =~= Seq::<Seq<char>>::empty());
    while i < keys.len()
        invariant
            i <= keys@.len(),
            all == text::views(keys@),
            out@ == literal_bytes(all.take(i as int)),
        decreases keys.len() - i,
    {
        proof {
            assert(all.take(i + 1).drop_last() =~= all.take(i as int));
            assert(all.take(i + 1).last() == keys@[i as int]@);
        }
        bytes::push_all(&mut out, keys[i].as_str().as_bytes());
        i = i + 1;
    }
    assert(all.take(i as int) =~= all);
    out
}

/// What is known of keys for a pane on a Windows console.
#[derive(Debug, PartialEq, Eq)]
pub struct ConsoleKeys {
    /// The keys stand for the selection of all text.
    pub select_all: bool,
    /// Whether the keys are sent as a sequence of console events.
    pub sequence: Result<bool, RmuxError>,
    /// What is sent through the console, where the keys go that way.
    pub console: Option<ConsoleInput>,
    /// The keys are sent as bytes although the console takes them.
    pub as_pane_bytes: bool,
}

/// How keys reach a pane.
#[derive(Debug, PartialEq, Eq)]
pub enum PaneInputPlan {
    Refused(RmuxError),
    ConsoleSequence(PaneTarget),
    WriteConsole { target: PaneTarget, action: ConsoleAction, bytes: Vec<u8> },
    WriteBytes { target: PaneTarget, bytes: Vec<u8> },
}

/// A plan as a value.
pub enum InputPlanModel {
    Refused(ErrorModel),
    ConsoleSequence(PanePlace),
    WriteConsole(PanePlace, ConsoleAction, Seq<u8>),
    WriteBytes(PanePlace, Seq<u8>),
}

impl View for PaneInputPlan {
    type V = InputPlanModel;

    open spec fn view(&self) -> InputPlanModel {
        match self {
            PaneInputPlan::Refused(error) => InputPlanModel::Refused(error@),
            PaneInputPlan::ConsoleSequence(target) => InputPlanModel::ConsoleSequence(target@),
            PaneInputPlan::WriteConsole { target, action, bytes } => InputPlanModel::WriteConsole(
                target@,
                *action,
                bytes@,
            ),
            PaneInputPlan::WriteBytes { target, bytes } => InputPlanModel::WriteBytes(
                target@,
                bytes@,
            ),
        }
    }
}

/// How keys that are not literal text reach the pane at `place` as `bytes`, or
/// through its console.
pub open spec fn key_plan(place: PanePlace, bytes: Seq<u8>, console: Option<ConsoleKeys>) ->
    InputPlanModel {
    match console {
        Some(console) if !console.select_all => match console.sequence {
            Err(error) => InputPlanModel::Refused(error@),
            Ok(true) => InputPlanModel::ConsoleSequence(place),
            Ok(false) => match console.console {
                Some(input) if !console.as_pane_bytes => InputPlanModel::WriteConsole(
                    place,
                    input.action,
                    input.bytes@,
                ),
                _ => InputPlanModel::WriteBytes(place, bytes),
            },
        },
        _ => InputPlanModel::WriteBytes(place, bytes),
    }
}

/// How keys reach a pane.
pub open spec fn input_plan(
    store: SessionStore,
    target: PaneTargetRef,
    keys: Seq<Seq<char>>,
    literal: bool,
    encoded: Result<Vec<u8>, RmuxError>,
    console: Option<ConsoleKeys>,
) -> InputPlanModel {
    match resolved(store, target) {
        PlaceModel::Refused(refusal) => InputPlanModel::Refused(refusal),
        PlaceModel::Found(place) => if literal {
            InputPlanModel::WriteBytes(place, literal_bytes(keys))
        } else {
            match encoded {
                Err(error) => InputPlanModel::Refused(error@),
                Ok(bytes) => key_plan(place, bytes@, console),
            }
        },
    }
}

/// How keys reach a pane. `encoded` is what the keys are to the pane, `console`
/// what is known of them where panes are Windows consoles.
pub fn handle_pane_input_ref(
    store: &SessionStore,
    target: &PaneTargetRef,
    keys: &Vec<String>,
    literal: bool,
    encoded: Result<Vec<u8>, RmuxError>,
    console: Option<ConsoleKeys>,
) -> (plan: PaneInputPlan)
    ensures
        plan@ == input_plan(*store, *target, text::views(keys@), literal, encoded, console),
{
    let target = match resolve_pane_target_ref(store, target) {
        Ok(target) => target,
        Err(error) => {
            return PaneInputPlan::Refused(error);
        },
    };
    if literal {
        let bytes = literal_key_bytes(keys);
        return PaneInputPlan::WriteBytes { target, bytes };
    }
    let bytes = match encoded {
        Ok(bytes) => bytes,
        Err(error) => {
            return PaneInputPlan::Refused(error);
        },
    };
    match console {
        Some(console) => {
            if console.select_all {
                return PaneInputPlan::WriteBytes { target, bytes };
            }
            match console.sequence {
                Err(error) => PaneInputPlan::Refused(error),
                Ok(true) => PaneInputPlan::ConsoleSequence(target),
                Ok(false) => match console.console {
                    Some(input) => {
                        if console.as_pane_bytes {
                            PaneInputPlan::WriteBytes { target, bytes }
                        } else {
                            PaneInputPlan::WriteConsole {
                                target,
                                action: input.action,
                                bytes: input.bytes,
                            }
                        }
                    },
                    None => PaneInputPlan::WriteBytes { target, bytes },
                },
            }
        },
        None => PaneInputPlan::WriteBytes { target, bytes },
    }
}

/// The answer to keys that were sent.
#[derive(Debug, Clone, Copy, PartialEq, Eq, Structural)]
pub struct SendKeysResponse {
    pub key_count: usize,
}

/// The answer to keys for a pane once they were written, or were refused: how many
/// they are, by whatever way they reached the pane.
pub fn pane_input_answer(keys: &Vec<String>, written: Result<(), RmuxError>) -> (answer: Result<
    SendKeysResponse,
    RmuxError,
>)
    ensures
        match (written, answer) {
            (Ok(()), Ok(response)) => response.key_count == keys@.len(),
            (Err(refusal), Err(error)) => error@ == refusal@,
            _ => false,
        },
{
    match written {
        Ok(()) => Ok(SendKeysResponse { key_count: keys.len() }),
        Err(error) => Err(error),
    }
}

/// Whether a write counts as input by hand: it wrote something, and did not
/// fail.
pub fn mark_single_pane_input_ref_as_interactive(wrote_bytes: bool, succeeded: bool) -> (marks:
    bool)
    ensures
        marks == (wrote_bytes && succeeded),
{
    wrote_bytes && succeeded
}

/// How the size of a pane changes.
#[derive(Debug, Clone, Copy, PartialEq, Eq, Structural)]
pub enum ResizeKind {
    /// The rows below the cursor go.
    TrimBelow,
    NoOp,
    Layout,
}

/// A resize that can be made.
#[derive(Debug, PartialEq, Eq)]
pub struct PaneResizePlan {
    pub target: PaneTarget,
    /// The pane's rows are trimmed, and the layout stays.
    pub trims: bool,
}

/// The resize of a pane.
pub fn handle_pane_resize_ref(store: &SessionStore, target: &PaneTargetRef, kind: ResizeKind) -> (
result: Result<PaneResizePlan, RmuxError>)
    ensures
        match (result, resolved(*store, *target)) {
            (Ok(plan), PlaceModel::Found(place)) => plan.target@ == place && plan.trims == (kind
                == ResizeKind::TrimBelow),
            (Err(error), PlaceModel::Refused(refusal)) => error@ == refusal,
            _ => false,
        },
{
    match resolve_pane_target_ref(store, target) {
        Ok(target) => Ok(PaneResizePlan { target, trims: kind == ResizeKind::TrimBelow }),
        Err(error) => Err(error),
    }
}

/// Whether a resize is told of as a change of layout.
pub fn resize_changes_layout(succeeded: bool, kind: ResizeKind) -> (changes: bool)
    ensures
        changes == (succeeded && kind != ResizeKind::NoOp),
{
    succeeded && kind != ResizeKind::NoOp
}

/// What a kill took away.
#[derive(Debug, PartialEq, Eq)]
pub struct KilledPanes {
    pub session_destroyed: bool,
    pub window_destroyed: bool,
    pub removed_session_id: Option<u32>,
    pub removed_pane_ids: Vec<u32>,
}

/// What follows a kill.
#[derive(Debug, Clone, Copy, PartialEq, Eq, Structural)]
pub enum PaneKillEffect {
    RemoveSessionHooks,
    RemoveWindowHooks { window_index: u32 },
    RemovePaneHooks { window_index: u32, pane_index: u32 },
    PrepareSessionClosed { session_id: u32 },
    RecordPanesKilled,
    PruneWebSession { session_id: u32 },
    ForgetPaneSnapshots,
    EmitSessionClosed,
    CleanUpOutputSubscriptions,
    RemoveSessionLeases,
    ExitAttachedClients,
    CancelSilenceTimers,
    RefreshControlClients,
    ShutDownIfEmpty,
    SyncSilenceTimers,
    EmitLayoutChanged { window_index: u32 },
    DismissModeTree,
    RefreshAttachedClients,
}

/// The effects while the state is held: what was killed loses its hooks.
pub open spec fn kill_state_effects(place: PanePlace, killed: KilledPanes) -> Seq<PaneKillEffect> {
    let hooks = if killed.session_destroyed {
        match killed.removed_session_id {
            Some(session_id) => seq![
                PaneKillEffect::RemoveSessionHooks,
                PaneKillEffect::PrepareSessionClosed { session_id },
            ],
            None => seq![PaneKillEffect::RemoveSessionHooks],
        }
    } else if killed.window_destroyed {
        seq![PaneKillEffect::RemoveWindowHooks { window_index: place.1 }]
    } else {
        seq![PaneKillEffect::RemovePaneHooks { window_index: place.1, pane_index: place.2 }]
    };
    hooks.push(PaneKillEffect::RecordPanesKilled)
}

/// The effects after that.
pub open spec fn kill_after_effects(place: PanePlace, killed: KilledPanes) -> Seq<PaneKillEffect> {
    let pruned = match killed.removed_session_id {
        Some(session_id) => seq![PaneKillEffect::PruneWebSession { session_id }],
        None => Seq::empty(),
    };
    let forgotten = if killed.removed_pane_ids@.len() > 0 {
        seq![PaneKillEffect::ForgetPaneSnapshots]
    } else {
        Seq::empty()
    };
    let closed = if killed.session_destroyed && killed.removed_session_id is Some {
        seq![PaneKillEffect::EmitSessionClosed]
    } else {
        Seq::empty()
    };
    let rest = if killed.session_destroyed {
        seq![
            PaneKillEffect::RemoveSessionLeases,
            PaneKillEffect::ExitAttachedClients,
            PaneKillEffect::CancelSilenceTimers,
            PaneKillEffect::RefreshControlClients,
            PaneKillEffect::ShutDownIfEmpty,
        ]
    } else if killed.window_destroyed {
        seq![
            PaneKillEffect::SyncSilenceTimers,
            PaneKillEffect::DismissModeTree,
            PaneKillEffect::RefreshAttachedClients,
        ]
    } else {
        seq![
            PaneKillEffect::SyncSilenceTimers,
            PaneKillEffect::EmitLayoutChanged { window_index: place.1 },
            PaneKillEffect::DismissModeTree,
            PaneKillEffect::RefreshAttachedClients,
        ]
    };
    pruned + forgotten + closed + seq![PaneKillEffect::CleanUpOutputSubscriptions] + rest
}

fn pane_kill_effects(target: &PaneTarget, killed: &KilledPanes) -> (effects: Vec<PaneKillEffect>)
    ensures
        effects@ == kill_state_effects(target@, *killed) + kill_after_effects(target@, *killed),
{
    let mut effects: Vec<PaneKillEffect> = Vec::new();
    let window_index: u32 = target.window_index;
    if killed.session_destroyed {
        effects.push(PaneKillEffect::RemoveSessionHooks);
        if let Some(session_id) = killed.removed_session_id {
            effects.push(PaneKillEffect::PrepareSessionClosed { session_id });
        }
    } else if killed.window_destroyed {
        effects.push(PaneKillEffect::RemoveWindowHooks { window_index });
    } else {
        effects.push(
            PaneKillEffect::RemovePaneHooks { window_index, pane_index: target.pane_index },
        );
    }
    effects.push(PaneKillEffect::RecordPanesKilled);
    assert(effects@ =~= kill_state_effects(target@, *killed));
    if let Some(session_id) = killed.removed_session_id {
        effects.push(PaneKillEffect::PruneWebSession { session_id });
    }
    if killed.removed_pane_ids.len() > 0 {
        effects.push(PaneKillEffect::ForgetPaneSnapshots);
    }
    if killed.session_destroyed && killed.removed_session_id.is_some() {
        effects.push(PaneKillEffect::EmitSessionClosed);
    }
    effects.push(PaneKillEffect::CleanUpOutputSubscriptions);
    if killed.session_destroyed {
        effects.push(PaneKillEffect::RemoveSessionLeases);
        effects.push(PaneKillEffect::ExitAttachedClients);
        effects.push(PaneKillEffect::CancelSilenceTimers);
        effects.push(PaneKillEffect::RefreshControlClients);
        effects.push(PaneKillEffect::ShutDownIfEmpty);
    } else {
        effects.push(PaneKillEffect::SyncSilenceTimers);
        if !killed.window_destroyed {
            effects.push(PaneKillEffect::EmitLayoutChanged { window_index });
        }
        effects.push(PaneKillEffect::DismissModeTree);
        effects.push(PaneKillEffect::RefreshAttachedClients);
    }
    assert(effects@ =~= kill_state_effects(target@, *killed) + kill_after_effects(
        target@,
        *killed,
    ));
    effects
}

/// What follows the kill of a pane, in order, where `killed` is what came of it. A
/// kill that failed has no effects.
pub fn handle_pane_kill_ref(
    store: &SessionStore,
    target: &PaneTargetRef,
    killed: Result<KilledPanes, RmuxError>,
) -> (result: Result<Vec<PaneKillEffect>, RmuxError>)
    ensures
        match (resolved(*store, *target), killed) {
            (PlaceModel::Refused(refusal), _) => result matches Err(error) && error@ == refusal,
            (PlaceModel::Found(_), Err(refusal)) => result matches Err(error) && error@
                == refusal@,
            (PlaceModel::Found(place), Ok(killed)) => result matches Ok(effects) && effects@
                == kill_state_effects(place, killed) + kill_after_effects(place, killed),
        },
{
    let target = match resolve_pane_target_ref(store, target) {
        Ok(target) => target,
        Err(error) => {
            return Err(error);
        },
    };
    match killed {
        Ok(killed) => Ok(pane_kill_effects(&target, &killed)),
        Err(error) => Err(error),
    }
}

/// What a pane shows, where `shown` is what it shows at the place that the request
/// means.
pub fn handle_pane_snapshot_ref<S>(
    store: &SessionStore,
    target: &PaneTargetRef,
    shown: Result<S, RmuxError>,
) -> (result: Result<S, RmuxError>)
    ensures
        match resolved(*store, *target) {
            PlaceModel::Refused(refusal) => result matches Err(error) && error@ == refusal,
            PlaceModel::Found(_) => result == shown,
        },
{
    match resolve_pane_target_ref(store, target) {
        Ok(_) => shown,
        Err(error) => Err(error),
    }
}

/// A session that a kill destroyed is not refreshed any more, and its leases
/// and clients go; one that lives on keeps both.
pub proof fn only_a_destroyed_session_loses_its_clients(place: PanePlace, killed: KilledPanes)
    ensures
        killed.session_destroyed == kill_after_effects(place, killed).contains(
            PaneKillEffect::ExitAttachedClients,
        ),
        killed.session_destroyed == kill_after_effects(place, killed).contains(
            PaneKillEffect::RemoveSessionLeases,
        ),
        killed.session_destroyed != kill_after_effects(place, killed).contains(
            PaneKillEffect::RefreshAttachedClients,
        ),
{
    let effects = kill_after_effects(place, killed);
    let n = effects.len() as int;
    if killed.session_destroyed {
        assert(effects[n - 4] == PaneKillEffect::ExitAttachedClients);
        assert(effects[n - 5] == PaneKillEffect::RemoveSessionLeases);
    } else {
        assert(effects[n - 1] == PaneKillEffect::RefreshAttachedClients);
    }
}

/// What a selection or a new title is about.
#[derive(Debug, PartialEq, Eq)]
pub struct PaneSelectPlan {
    pub target: PaneTarget,
    /// The pane is not the active one yet, and is to be.
    pub pane_changed: bool,
    /// The id of the pane at the target.
    pub pane_id: Option<u32>,
}

/// The pane at a place.
pub open spec fn pane_at(store: SessionStore, place: PanePlace) -> Option<sessions::Pane> {
    match store.session_spec(place.0) {
        Some(session) => match session.window_spec(place.1) {
            Some(window) => sessions::pane_with_index(window.panes@, place.2),
            None => None,
        },
        None => None,
    }
}

/// The id of the pane at a place.
pub open spec fn pane_id_at(store: SessionStore, place: PanePlace) -> Option<u32> {
    match pane_at(store, place) {
        Some(pane) => Some(pane.id),
        None => None,
    }
}

/// Another pane than the one at `place` is active in its window.
pub open spec fn another_pane_is_active(store: SessionStore, place: PanePlace) -> bool {
    &&& store.session_spec(place.0) matches Some(session)
    &&& session.window_spec(place.1) matches Some(window)
    &&& window.active_pane_index != place.2
}

/// The id of the pane at a place.
pub fn pane_id_for_select_target(store: &SessionStore, target: &PaneTarget) -> (id: Option<u32>)
    ensures
        id == pane_id_at(*store, target@),
{
    match store.session(target.session_name.as_str()) {
        Some(session) => match session.window_at(target.window_index) {
            Some(window) => match window.pane(target.pane_index) {
                Some(pane) => Some(pane.id),
                None => None,
            },
            None => None,
        },
        None => None,
    }
}

/// The selection of a pane, or its new title where `titled`.
pub fn handle_pane_select_ref(store: &SessionStore, target: &PaneTargetRef, titled: bool) -> (
result: Result<PaneSelectPlan, RmuxError>)
    ensures
        match resolved(*store, *target) {
            PlaceModel::Refused(refusal) => result matches Err(error) && error@ == refusal,
            PlaceModel::Found(place) => if !titled && store.session_spec(place.0) is None {
                result matches Err(error) && error@ == ErrorModel::SessionNotFound(place.0)
            } else {
                result matches Ok(plan) && plan.target@ == place && plan.pane_changed == (!titled
                    && another_pane_is_active(*store, place)) && plan.pane_id == pane_id_at(
                    *store,
                    place,
                )
            },
        },
{
    let target = match resolve_pane_target_ref(store, target) {
        Ok(target) => target,
        Err(error) => {
            return Err(error);
        },
    };
    let pane_changed = match store.session(target.session_name.as_str()) {
        Some(session) => match session.window_at(target.window_index) {
            Some(window) => !titled && window.active_pane_index != target.pane_index,
            None => false,
        },
        None => {
            if !titled {
                return Err(RmuxError::SessionNotFound(target.session_name.clone()));
            }
            false
        },
    };
    let pane_id = pane_id_for_select_target(store, &target);
    Ok(PaneSelectPlan { target, pane_changed, pane_id })
}

/// What came of a selection or a new title.
#[derive(Debug, PartialEq, Eq)]
pub enum PaneSelectOutcome {
    Failed,
    /// The title was set; it differs from the old one where `changed`.
    Titled { changed: bool },
    Selected { active_pane_index: u32 },
}

/// What follows a selection or a new title.
#[derive(Debug, Clone, Copy, PartialEq, Eq, Structural)]
pub enum PaneSelectEffect {
    RecordTitleChange { pane_id: u32 },
    EmitPaneChanged { window_index: u32 },
    EmitTitleChanged,
    /// The hook that runs after a selection; it and the answer name this pane.
    AfterSelectHook { window_index: u32, pane_index: u32 },
    RefreshAttachedClients,
}

/// The effects of a title that was set.
pub open spec fn title_effects(plan: PaneSelectPlan, changed: bool) -> Seq<PaneSelectEffect> {
    let recorded = match plan.pane_id {
        Some(pane_id) if changed => seq![PaneSelectEffect::RecordTitleChange { pane_id }],
        _ => Seq::empty(),
    };
    let moved = if plan.pane_changed {
        seq![PaneSelectEffect::EmitPaneChanged { window_index: plan.target.window_index }]
    } else {
        Seq::empty()
    };
    let told = if changed {
        seq![PaneSelectEffect::EmitTitleChanged]
    } else {
        Seq::empty()
    };
    recorded + moved + told
}

/// What follows a selection or a new title, in order.
pub open spec fn select_effects(plan: PaneSelectPlan, outcome: PaneSelectOutcome) -> Seq<
    PaneSelectEffect,
> {
    let window_index = plan.target.window_index;
    match outcome {
        PaneSelectOutcome::Failed => Seq::empty(),
        PaneSelectOutcome::Titled { changed } => title_effects(plan, changed) + seq![
            PaneSelectEffect::AfterSelectHook { window_index, pane_index: plan.target.pane_index },
            PaneSelectEffect::RefreshAttachedClients,
        ],
        PaneSelectOutcome::Selected { active_pane_index } => title_effects(plan, false) + seq![
            PaneSelectEffect::AfterSelectHook { window_index, pane_index: active_pane_index },
            PaneSelectEffect::RefreshAttachedClients,
        ],
    }
}

/// What follows a selection or a new title, in order.
pub fn pane_select_effects(plan: &PaneSelectPlan, outcome: &PaneSelectOutcome) -> (effects: Vec<
    PaneSelectEffect,
>)
    ensures
        effects@ == select_effects(*plan, *outcome),
{
    let mut effects: Vec<PaneSelectEffect> = Vec::new();
    let window_index: u32 = plan.target.window_index;
    let (changed, pane_index) = match outcome {
        PaneSelectOutcome::Failed => {
            return effects;
        },
        PaneSelectOutcome::Titled { changed } => (*changed, plan.target.pane_index),
        PaneSelectOutcome::Selected { active_pane_index } => (false, *active_pane_index),
    };
    if changed {
        if let Some(pane_id) = plan.pane_id {
            effects.push(PaneSelectEffect::RecordTitleChange { pane_id });
        }
    }
    if plan.pane_changed {
        effects.push(PaneSelectEffect::EmitPaneChanged { window_index });
    }
    if changed {
        effects.push(PaneSelectEffect::EmitTitleChanged);
    }
    assert(effects@ =~= title_effects(*plan, changed));
    effects.push(PaneSelectEffect::AfterSelectHook { window_index, pane_index });
    effects.push(PaneSelectEffect::RefreshAttachedClients);
    assert(effects@ =~= select_effects(*plan, *outcome));
    effects
}

/// Where a respawn stands: what was asked for last.
#[derive(Debug, Clone, Copy, PartialEq, Eq, Structural)]
pub enum RespawnStage {
    SettingOption,
    SyncingAliases,
    FindingPane,
    Respawning { pane_id: u32 },
}

/// The respawn of a pane. `keep_alive` is whether the pane is to stay once its
/// process ends, where the request says so.
#[derive(Debug, PartialEq, Eq)]
pub struct PaneRespawn {
    pub target: PaneTarget,
    pub keep_alive: Option<bool>,
    pub stage: RespawnStage,
}

/// What a respawn asks for next.
#[derive(Debug, PartialEq, Eq)]
pub enum RespawnAction {
    SetRemainOnExit { keep_alive: bool },
    SyncAliasOptions,
    FindPane,
    Respawn { pane_id: u32 },
    /// The pane runs again. What follows, `pane_respawn_effects` says; the change of
    /// the option is recorded where it was set.
    Respawned { pane_id: u32, record_option: bool },
    /// The respawn is refused; the options are put back where `restore_options`.
    Refused { error: RmuxError, restore_options: bool },
}

/// An action as a value.
pub enum RespawnActionModel {
    SetRemainOnExit(bool),
    SyncAliasOptions,
    FindPane,
    Respawn(u32),
    Respawned(u32, bool),
    Refused(ErrorModel, bool),
}

impl View for RespawnAction {
    type V = RespawnActionModel;

    open spec fn view(&self) -> RespawnActionModel {
        match self {
            RespawnAction::SetRemainOnExit { keep_alive } => {
                RespawnActionModel::SetRemainOnExit(*keep_alive)
            },
            RespawnAction::SyncAliasOptions => RespawnActionModel::SyncAliasOptions,
            RespawnAction::FindPane => RespawnActionModel::FindPane,
            RespawnAction::Respawn { pane_id } => RespawnActionModel::Respawn(*pane_id),
            RespawnAction::Respawned { pane_id, record_option } => RespawnActionModel::Respawned(
                *pane_id,
                *record_option,
            ),
            RespawnAction::Refused { error, restore_options } => RespawnActionModel::Refused(
                error@,
                *restore_options,
            ),
        }
    }
}

/// Where a respawn stands, and what it asks for, once what it asked for last has
/// come out; `Ok` holds the pane's id where the pane was looked for.
pub open spec fn respawn_turn(
    stage: RespawnStage,
    keep_alive: Option<bool>,
    outcome: Result<u32, RmuxError>,
) -> (RespawnStage, RespawnActionModel) {
    match (stage, outcome) {
        (RespawnStage::SettingOption, Ok(_)) => (
            RespawnStage::SyncingAliases,
            RespawnActionModel::SyncAliasOptions,
        ),
        (RespawnStage::SettingOption, Err(error)) => (
            stage,
            RespawnActionModel::Refused(error@, false),
        ),
        (RespawnStage::SyncingAliases, Ok(_)) => (
            RespawnStage::FindingPane,
            RespawnActionModel::FindPane,
        ),
        (RespawnStage::SyncingAliases, Err(error)) => (
            stage,
            RespawnActionModel::Refused(error@, keep_alive is Some),
        ),
        (RespawnStage::FindingPane, Ok(pane_id)) => (
            RespawnStage::Respawning { pane_id },
            RespawnActionModel::Respawn(pane_id),
        ),
        (RespawnStage::FindingPane, Err(error)) => (
            stage,
            RespawnActionModel::Refused(error@, false),
        ),
        (RespawnStage::Respawning { pane_id }, Ok(_)) => (
            stage,
            RespawnActionModel::Respawned(pane_id, keep_alive is Some),
        ),
        (RespawnStage::Respawning { .. }, Err(error)) => (
            stage,
            RespawnActionModel::Refused(error@, keep_alive is Some),
        ),
    }
}

/// The start of a respawn.
pub fn handle_pane_respawn_ref(
    store: &SessionStore,
    target: &PaneTargetRef,
    keep_alive: Option<bool>,
) -> (result: Result<(PaneRespawn, RespawnAction), RmuxError>)
    ensures
        match resolved(*store, *target) {
            PlaceModel::Refused(refusal) => result matches Err(error) && error@ == refusal,
            PlaceModel::Found(place) => {
                &&& result matches Ok((respawn, action))
                &&& respawn.target@ == place
                &&& respawn.keep_alive == keep_alive
                &&& match keep_alive {
                    Some(keep) => respawn.stage == RespawnStage::SettingOption && action@
                        == RespawnActionModel::SetRemainOnExit(keep),
                    None => respawn.stage == RespawnStage::FindingPane && action@
                        == RespawnActionModel::FindPane,
                }
            },
        },
{
    let target = match resolve_pane_target_ref(store, target) {
        Ok(target) => target,
        Err(error) => {
            return Err(error);
        },
    };
    match keep_alive {
        Some(keep) => Ok(
            (
                PaneRespawn { target, keep_alive, stage: RespawnStage::SettingOption },
                RespawnAction::SetRemainOnExit { keep_alive: keep },
            ),
        ),
        None => Ok(
            (
                PaneRespawn { target, keep_alive, stage: RespawnStage::FindingPane },
                RespawnAction::FindPane,
            ),
        ),
    }
}

impl PaneRespawn {
    /// Goes on with what came of the last action.
    pub fn advance(&mut self, outcome: Result<u32, RmuxError>) -> (action: RespawnAction)
        ensures
            (final(self).stage, action@) == respawn_turn(
                old(self).stage,
                old(self).keep_alive,
                outcome,
            ),
            *final(self) == (PaneRespawn { stage: final(self).stage, ..*old(self) }),
    {
        let set = self.keep_alive.is_some();
        match (self.stage, outcome) {
            (RespawnStage::SettingOption, Ok(_)) => {
                self.stage = RespawnStage::SyncingAliases;
                RespawnAction::SyncAliasOptions
            },
            (RespawnStage::SettingOption, Err(error)) => RespawnAction::Refused {
                error,
                restore_options: false,
            },
            (RespawnStage::SyncingAliases, Ok(_)) => {
                self.stage = RespawnStage::FindingPane;
                RespawnAction::FindPane
            },
            (RespawnStage::SyncingAliases, Err(error)) => RespawnAction::Refused {
                error,
                restore_options: set,
            },
            (RespawnStage::FindingPane, Ok(pane_id)) => {
                self.stage = RespawnStage::Respawning { pane_id };
                RespawnAction::Respawn { pane_id }
            },
            (RespawnStage::FindingPane, Err(error)) => RespawnAction::Refused {
                error,
                restore_options: false,
            },
            (RespawnStage::Respawning { pane_id }, Ok(_)) => RespawnAction::Respawned {
                pane_id,
                record_option: set,
            },
            (RespawnStage::Respawning { .. }, Err(error)) => RespawnAction::Refused {
                error,
                restore_options: set,
            },
        }
    }
}

/// What follows a respawn.
#[derive(Debug, Clone, Copy, PartialEq, Eq, Structural)]
pub enum PaneRespawnEffect {
    /// Record that what comes is of another process, while the state is held.
    RecordRespawnBoundary { pane_id: u32 },
    /// Record the change of the option that keeps the pane, while the state is held.
    RecordOptionMutation { pane_id: u32 },
    /// Draw the session anew for its clients, once the state is let go of.
    RefreshAttachedClients,
}

/// What follows an action of a respawn, in order. Only a pane that runs again is
/// recorded and drawn.
pub open spec fn respawn_effects(action: RespawnActionModel) -> Seq<PaneRespawnEffect> {
    match action {
        RespawnActionModel::Respawned(pane_id, true) => seq![
            PaneRespawnEffect::RecordRespawnBoundary { pane_id },
            PaneRespawnEffect::RecordOptionMutation { pane_id },
            PaneRespawnEffect::RefreshAttachedClients,
        ],
        RespawnActionModel::Respawned(pane_id, false) => seq![
            PaneRespawnEffect::RecordRespawnBoundary { pane_id },
            PaneRespawnEffect::RefreshAttachedClients,
        ],
        _ => Seq::empty(),
    }
}

/// What follows an action of a respawn, in order.
pub fn pane_respawn_effects(action: &RespawnAction) -> (effects: Vec<PaneRespawnEffect>)
    ensures
        effects@ == respawn_effects(action@),
{
    let mut effects: Vec<PaneRespawnEffect> = Vec::new();
    if let RespawnAction::Respawned { pane_id, record_option } = action {
        effects.push(PaneRespawnEffect::RecordRespawnBoundary { pane_id: *pane_id });
        if *record_option {
            effects.push(PaneRespawnEffect::RecordOptionMutation { pane_id: *pane_id });
        }
        effects.push(PaneRespawnEffect::RefreshAttachedClients);
    }
    assert(effects@ =~= respawn_effects(action@));
    effects
}

/// A pane that runs again is recorded as such before anything else, and the option
/// that keeps it is recorded if and only if the request set it. Clients are drawn for
/// last.
pub proof fn a_respawn_is_recorded_before_its_option(
    pane_id: u32,
    keep_alive: Option<bool>,
    outcome: u32,
)
    ensures
        ({
            let turn = respawn_turn(
                RespawnStage::Respawning { pane_id },
                keep_alive,
                Ok(outcome),
            );
            let effects = respawn_effects(turn.1);
            &&& effects.first() == (PaneRespawnEffect::RecordRespawnBoundary { pane_id })
            &&& effects.contains(PaneRespawnEffect::RecordOptionMutation { pane_id })
                <==> keep_alive is Some
            &&& effects.last() == PaneRespawnEffect::RefreshAttachedClients
        }),
{
    let turn = respawn_turn(RespawnStage::Respawning { pane_id }, keep_alive, Ok(outcome));
    if keep_alive is Some {
        assert(respawn_effects(turn.1)[1] == (PaneRespawnEffect::RecordOptionMutation { pane_id }));
    }
}

/// Where the process could not be started, the options are put back if the
/// request set one, and only then.
pub proof fn a_failed_respawn_puts_the_options_back(
    pane_id: u32,
    keep_alive: Option<bool>,
    error: RmuxError,
)
    ensures
        respawn_turn(RespawnStage::Respawning { pane_id }, keep_alive, Err(error)).1
            == RespawnActionModel::Refused(error@, keep_alive is Some),
{
}

/// A pane that is found by its id is the pane with that id: the place names a
/// window of the session, and the first pane of that window with the id has the
/// place's index.
pub proof fn a_place_found_by_id_holds_that_pane(store: SessionStore, name: Seq<char>, pane_id: u32)
    ensures
        place_of_pane(store, name, pane_id) matches PlaceModel::Found(place) ==> {
            &&& place.0 == name
            &&& store.session_spec(name) matches Some(session)
            &&& session.window_spec(place.1) matches Some(window)
            &&& sessions::pane_with_id(window.panes@, pane_id) matches Some(pane)
            &&& pane.index == place.2
            &&& pane.id == pane_id
        },
{
    if let PlaceModel::Found(place) = place_of_pane(store, name, pane_id) {
        let window = store.session_spec(name)->0.window_spec(place.1)->0;
        lemma_pane_with_id(window.panes@, pane_id);
    }
}

proof fn lemma_pane_with_id(panes: Seq<sessions::Pane>, id: u32)
    ensures
        sessions::pane_with_id(panes, id) matches Some(pane) ==> pane.id == id,
    decreases panes.len(),
{
    if panes.len() > 0 && panes[0].id != id {
        lemma_pane_with_id(panes.subrange(1, panes.len() as int), id);
    }
}

/// Keys that are literal text reach the pane as their text, in order; others as what
/// they were encoded to, or, on a console that takes them, through it. What selects all
/// goes as bytes.
pub proof fn keys_reach_their_pane(
    store: SessionStore,
    target: PaneTarget,
    keys: Vec<String>,
    literal: bool,
    encoded: Vec<u8>,
    console: Option<ConsoleKeys>,
    plan: PaneInputPlan,
)
    requires
        call_ensures(
            handle_pane_input_ref,
            (&store, &PaneTargetRef::Slot(target), &keys, literal, Ok(encoded), console),
            plan,
        ),
    ensures
        literal ==> plan@ == InputPlanModel::WriteBytes(
            target@,
            literal_bytes(text::views(keys@)),
        ),
        !literal && console is None ==> plan@ == InputPlanModel::WriteBytes(target@, encoded@),
        !literal ==> (console matches Some(known) ==> {
            &&& known.select_all ==> plan@ == InputPlanModel::WriteBytes(target@, encoded@)
            &&& !known.select_all && known.sequence is Err ==> plan@ is Refused
            &&& !known.select_all && (known.sequence matches Ok(sequence) && sequence) ==> plan@
                == InputPlanModel::ConsoleSequence(target@)
            &&& !known.select_all && (known.sequence matches Ok(sequence) && !sequence) ==> (
            known.console matches Some(input) ==> plan@ == if known.as_pane_bytes {
                InputPlanModel::WriteBytes(target@, encoded@)
            } else {
                InputPlanModel::WriteConsole(target@, input.action, input.bytes@)
            })
            &&& !known.select_all && (known.sequence matches Ok(sequence) && !sequence)
                && known.console is None ==> plan@ == InputPlanModel::WriteBytes(target@, encoded@)
        }),
{
}

/// Literal keys are one text after another, in order.
pub proof fn literal_keys_keep_their_order(keys: Seq<Seq<char>>, key: Seq<char>)
    ensures
        literal_bytes(keys.push(key)) == literal_bytes(keys) + vstd::utf8::encode_utf8(key),
        literal_bytes(seq![]).len() == 0,
{
    assert(keys.push(key).drop_last() =~= keys);
}

/// A place is taken as it is given. An id is looked for in its session, and refused
/// where the session is missing or has no pane of the id.
pub proof fn a_target_is_resolved_as_it_is_given(
    store: SessionStore,
    target: PaneTarget,
    name: String,
    pane_id: u32,
)
    ensures
        resolved(store, PaneTargetRef::Slot(target)) == PlaceModel::Found(
            (target.session_name@, target.window_index, target.pane_index),
        ),
        store.session_spec(name@) is None ==> resolved(
            store,
            PaneTargetRef::Id { session_name: name, pane_id },
        ) == PlaceModel::Refused(ErrorModel::SessionNotFound(name@)),
        store.session_spec(name@) matches Some(session) ==> (session.window_of_pane_spec(pane_id)
            is None ==> resolved(store, PaneTargetRef::Id { session_name: name, pane_id })
            == PlaceModel::Refused(ErrorModel::PaneNotFound { session_name: name@, pane_id })),
{
}

/// A pane of a window whose index no other window has is found where it is.
pub proof fn a_pane_is_found_where_it_is(
    store: SessionStore,
    name: Seq<char>,
    pane_id: u32,
    session: sessions::Session,
    holder: sessions::Window,
    pane: sessions::Pane,
)
    requires
        store.session_spec(name) == Some(session),
        session.window_of_pane_spec(pane_id) == Some(holder),
        session.window_spec(holder.index) == Some(holder),
        sessions::pane_with_id(holder.panes@, pane_id) == Some(pane),
    ensures
        place_of_pane(store, name, pane_id) == PlaceModel::Found((name, holder.index, pane.index)),
{
}

/// What a kill took away loses its hooks first, a session all of them, a window and a
/// pane their own, and the kill is recorded. Of a session that was destroyed the end is
/// prepared before that and told after it, and its leases, clients and timers go before
/// the server may shut down; a session that lives on is drawn last, with its layout told
/// where the window lives on too.
pub proof fn a_kill_is_followed_in_order(
    store: SessionStore,
    target: PaneTarget,
    killed: KilledPanes,
    session_id: u32,
    result: Result<Vec<PaneKillEffect>, RmuxError>,
)
    requires
        call_ensures(handle_pane_kill_ref, (&store, &PaneTargetRef::Slot(target), Ok(killed)), result),
        killed.removed_pane_ids@.len() > 0,
        killed.removed_session_id == if killed.session_destroyed {
            Some(session_id)
        } else {
            None
        },
    ensures
        result matches Ok(effects) && effects@ == if killed.session_destroyed {
            seq![
                PaneKillEffect::RemoveSessionHooks,
                PaneKillEffect::PrepareSessionClosed { session_id },
                PaneKillEffect::RecordPanesKilled,
                PaneKillEffect::PruneWebSession { session_id },
                PaneKillEffect::ForgetPaneSnapshots,
                PaneKillEffect::EmitSessionClosed,
                PaneKillEffect::CleanUpOutputSubscriptions,
                PaneKillEffect::RemoveSessionLeases,
                PaneKillEffect::ExitAttachedClients,
                PaneKillEffect::CancelSilenceTimers,
                PaneKillEffect::RefreshControlClients,
                PaneKillEffect::ShutDownIfEmpty,
            ]
        } else if killed.window_destroyed {
            seq![
                PaneKillEffect::RemoveWindowHooks { window_index: target.window_index },
                PaneKillEffect::RecordPanesKilled,
                PaneKillEffect::ForgetPaneSnapshots,
                PaneKillEffect::CleanUpOutputSubscriptions,
                PaneKillEffect::SyncSilenceTimers,
                PaneKillEffect::DismissModeTree,
                PaneKillEffect::RefreshAttachedClients,
            ]
        } else {
            seq![
                PaneKillEffect::RemovePaneHooks {
                    window_index: target.window_index,
                    pane_index: target.pane_index,
                },
                PaneKillEffect::RecordPanesKilled,
                PaneKillEffect::ForgetPaneSnapshots,
                PaneKillEffect::CleanUpOutputSubscriptions,
                PaneKillEffect::SyncSilenceTimers,
                PaneKillEffect::EmitLayoutChanged { window_index: target.window_index },
                PaneKillEffect::DismissModeTree,
                PaneKillEffect::RefreshAttachedClients,
            ]
        },
{
}

/// A title that changed is recorded and told, one that did not neither; a selection
/// that moved is told. The hook names the pane that is active then, and clients are
/// drawn for last; a failure does nothing.
pub proof fn a_selection_is_followed_in_order(
    plan: PaneSelectPlan,
    pane_id: u32,
    changed: bool,
    active_pane_index: u32,
    failed: Vec<PaneSelectEffect>,
    titled: Vec<PaneSelectEffect>,
    selected: Vec<PaneSelectEffect>,
)
    requires
        plan.pane_id == Some(pane_id),
        call_ensures(pane_select_effects, (&plan, &PaneSelectOutcome::Failed), failed),
        call_ensures(pane_select_effects, (&plan, &PaneSelectOutcome::Titled { changed }), titled),
        call_ensures(
            pane_select_effects,
            (&plan, &PaneSelectOutcome::Selected { active_pane_index }),
            selected,
        ),
    ensures
        ({
            let window_index = plan.target.window_index;
            let moved = if plan.pane_changed {
                seq![PaneSelectEffect::EmitPaneChanged { window_index }]
            } else {
                seq![]
            };
            &&& failed@.len() == 0
            &&& changed ==> titled@ == seq![PaneSelectEffect::RecordTitleChange { pane_id }] + moved
                + seq![
                PaneSelectEffect::EmitTitleChanged,
                PaneSelectEffect::AfterSelectHook {
                    window_index,
                    pane_index: plan.target.pane_index,
                },
                PaneSelectEffect::RefreshAttachedClients,
            ]
            &&& !changed ==> titled@ == moved + seq![
                PaneSelectEffect::AfterSelectHook {
                    window_index,
                    pane_index: plan.target.pane_index,
                },
                PaneSelectEffect::RefreshAttachedClients,
            ]
            &&& selected@ == moved + seq![
                PaneSelectEffect::AfterSelectHook { window_index, pane_index: active_pane_index },
                PaneSelectEffect::RefreshAttachedClients,
            ]
        }),
{
}

/// A selection moves exactly where another pane was active; a new title moves nothing.
pub proof fn a_selection_moves_to_another_pane(
    store: SessionStore,
    target: PaneTarget,
    titled: bool,
    session: sessions::Session,
    window: sessions::Window,
    result: Result<PaneSelectPlan, RmuxError>,
)
    requires
        call_ensures(handle_pane_select_ref, (&store, &PaneTargetRef::Slot(target), titled), result),
        store.session_spec(target.session_name@) == Some(session),
        session.window_spec(target.window_index) == Some(window),
    ensures
        result matches Ok(plan) && plan.target@ == target@ && plan.pane_changed == (!titled
            && window.active_pane_index != target.pane_index) && (plan.pane_id matches Some(id)
            ==> (sessions::pane_with_index(window.panes@, target.pane_index) matches Some(pane)
            && pane.id == id)),
{
}

/// A respawn sets the option and brings its aliases in line before the pane is looked
/// for, where the request sets it, and then starts the pane that was found.
pub proof fn a_respawn_goes_step_by_step(
    keep_alive: Option<bool>,
    any: u32,
    pane_id: u32,
    error: RmuxError,
)
    ensures
        respawn_turn(RespawnStage::SettingOption, keep_alive, Ok(any)) == (
            RespawnStage::SyncingAliases,
            RespawnActionModel::SyncAliasOptions,
        ),
        respawn_turn(RespawnStage::SyncingAliases, keep_alive, Ok(any)) == (
            RespawnStage::FindingPane,
            RespawnActionModel::FindPane,
        ),
        respawn_turn(RespawnStage::FindingPane, keep_alive, Ok(pane_id)) == (
            RespawnStage::Respawning { pane_id },
            RespawnActionModel::Respawn(pane_id),
        ),
        respawn_turn(RespawnStage::Respawning { pane_id }, keep_alive, Ok(any)).1
            == RespawnActionModel::Respawned(pane_id, keep_alive is Some),
        respawn_turn(RespawnStage::SettingOption, keep_alive, Err(error)).1
            == RespawnActionModel::Refused(error@, false),
        respawn_turn(RespawnStage::SyncingAliases, keep_alive, Err(error)).1
            == RespawnActionModel::Refused(error@, keep_alive is Some),
        respawn_turn(RespawnStage::FindingPane, keep_alive, Err(error)).1
            == RespawnActionModel::Refused(error@, false),
{
}

/// Plans and actions are seen as what they are.
pub proof fn plans_are_seen_as_they_are(
    target: PaneTarget,
    action: ConsoleAction,
    bytes: Vec<u8>,
    error: RmuxError,
    pane_id: u32,
    yes: bool,
)
    ensures
        PaneInputPlan::Refused(error)@ == InputPlanModel::Refused(error@),
        PaneInputPlan::ConsoleSequence(target)@ == InputPlanModel::ConsoleSequence(target@),
        (PaneInputPlan::WriteConsole { target, action, bytes })@ == InputPlanModel::WriteConsole(
            target@,
            action,
            bytes@,
        ),
        (PaneInputPlan::WriteBytes { target, bytes })@ == InputPlanModel::WriteBytes(
            target@,
            bytes@,
        ),
        (RespawnAction::SetRemainOnExit { keep_alive: yes })@
            == RespawnActionModel::SetRemainOnExit(yes),
        RespawnAction::SyncAliasOptions@ == RespawnActionModel::SyncAliasOptions,
        RespawnAction::FindPane@ == RespawnActionModel::FindPane,
        (RespawnAction::Respawn { pane_id })@ == RespawnActionModel::Respawn(pane_id),
        (RespawnAction::Respawned { pane_id, record_option: yes })@
            == RespawnActionModel::Respawned(pane_id, yes),
        (RespawnAction::Refused { error, restore_options: yes })@ == RespawnActionModel::Refused(
            error@,
            yes,
        ),
{
}

} // verus!
