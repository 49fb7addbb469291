//! Options of one pane.
use crate::error::RmuxError;
use crate::pane_by_id;
use crate::pane_by_id::{resolve_pane_target_ref, PaneTargetRef, PlaceModel};
use crate::sessions::{PaneTarget, SessionStore};
use vstd::prelude::*;

verus! {

/// An option that the server knows, as far as a change of it matters at once.
#[derive(Debug, Clone, Copy, PartialEq, Eq, Structural)]
pub enum KnownOption {
    AlternateScreen,
    AllowSetTitle,
    MessageLimit,
    Other,
}

/// What setting an option did.
#[derive(Debug, PartialEq, Eq)]
pub struct OptionChange {
    pub name: String,
    pub old_value: Option<String>,
    pub new_value: Option<String>,
    pub changed: bool,
    /// For each notification that the change gives rise to, whether it affects
    /// alerts.
    pub affects_alerts: Vec<bool>,
    pub known_option: Option<KnownOption>,
}

/// The answer to a request that set an option.
#[derive(Debug, PartialEq, Eq)]
pub struct PaneOptionSetResponse {
    pub pane_id: u32,
    pub name: String,
    pub old_value: Option<String>,
    pub new_value: Option<String>,
    pub changed: bool,
}

/// The answer to a request for the value of an option.
#[derive(Debug, PartialEq, Eq)]
pub struct PaneOptionGetResponse {
    pub pane_id: u32,
    pub name: String,
    pub value: Option<String>,
}

/// What follows a change of an option.
#[derive(Debug, Clone, Copy, PartialEq, Eq, Structural)]
pub enum PaneOptionEffect {
    RefreshTranscriptLimits,
    RefreshAlternateScreen,
    RefreshTitleRename,
    TrimMessageLog,
    ResizeTerminals,
    RecordOptionMutations,
    RefreshAttachedClients,
    SyncAlertTimers,
}

/// The pane that a request is about: its place, and its id as `pane_id` was
/// found for that place.
pub fn pane_option_target(
    store: &SessionStore,
    target: &PaneTargetRef,
    pane_id: Result<u32, RmuxError>,
) -> (result: Result<(PaneTarget, u32), RmuxError>)
    ensures
        match (pane_by_id::resolved(*store, *target), pane_id) {
            (PlaceModel::Refused(refusal), _) => result matches Err(error) && error@ == refusal,
            (PlaceModel::Found(_), Err(refusal)) => result matches Err(error) && error@
                == refusal@,
            (PlaceModel::Found(place), Ok(id)) => result matches Ok((target, found)) && target@
                == place && found == id,
        },
{
    let target = match resolve_pane_target_ref(store, target) {
        Ok(target) => target,
        Err(error) => {
            return Err(error);
        },
    };
    match pane_id {
        Ok(id) => Ok((target, id)),
        Err(error) => Err(error),
    }
}

/// What a change asks for while the state is held, in order. It is recorded before
/// the state is let go of, whatever comes of the resize, so that changes are
/// recorded in the order in which they are made. `limits` is whether the scope is
/// one that transcripts are limited by.
pub open spec fn change_effects(change: OptionChange, limits: bool) -> Seq<PaneOptionEffect> {
    match change.known_option {
        None => seq![PaneOptionEffect::RecordOptionMutations],
        Some(option) => {
            let first = if limits {
                seq![PaneOptionEffect::RefreshTranscriptLimits]
            } else {
                Seq::empty()
            };
            let own = match option {
                KnownOption::AlternateScreen => seq![PaneOptionEffect::RefreshAlternateScreen],
                KnownOption::AllowSetTitle => seq![PaneOptionEffect::RefreshTitleRename],
                KnownOption::MessageLimit => seq![PaneOptionEffect::TrimMessageLog],
                KnownOption::Other => Seq::empty(),
            };
            first + own + seq![
                PaneOptionEffect::ResizeTerminals,
                PaneOptionEffect::RecordOptionMutations,
            ]
        },
    }
}

/// What a change asks for while the state is held, in order.
pub fn pane_option_effects(change: &OptionChange, limits: bool) -> (effects: Vec<PaneOptionEffect>)
    ensures
        effects@ == change_effects(*change, limits),
{
    let mut effects: Vec<PaneOptionEffect> = Vec::new();
    if let Some(option) = change.known_option {
        if limits {
            effects.push(PaneOptionEffect::RefreshTranscriptLimits);
        }
        match option {
            KnownOption::AlternateScreen => effects.push(PaneOptionEffect::RefreshAlternateScreen),
            KnownOption::AllowSetTitle => effects.push(PaneOptionEffect::RefreshTitleRename),
            KnownOption::MessageLimit => effects.push(PaneOptionEffect::TrimMessageLog),
            KnownOption::Other => {},
        }
        effects.push(PaneOptionEffect::ResizeTerminals);
    }
    effects.push(PaneOptionEffect::RecordOptionMutations);
    assert(effects@ =~= change_effects(*change, limits));
    effects
}

/// What follows once the state was let go of, in order; nothing where the resize
/// failed.
pub open spec fn settled_effects(change: OptionChange, resized: bool) -> Seq<PaneOptionEffect> {
    if !resized {
        Seq::empty()
    } else if change.affects_alerts@.contains(true) {
        seq![PaneOptionEffect::RefreshAttachedClients, PaneOptionEffect::SyncAlertTimers]
    } else {
        seq![PaneOptionEffect::RefreshAttachedClients]
    }
}

fn any(flags: &Vec<bool>) -> (any: bool)
    ensures
        any == flags@.contains(true),
{
    let mut i: usize = 0;
    while i < flags.len()
        invariant
            i <= flags@.len(),
            forall|j: int| 0 <= j < i ==> !#[trigger] flags@[j],
        decreases flags.len() - i,
    {
        if flags[i] {
            return true;
        }
        i = i + 1;
    }
    false
}

/// The answer to a request that set an option, and what follows then. `set` is what
/// setting it gave, `resize` what came of resizing the terminals; where no
/// resize was asked for, it is `Ok`.
pub fn handle_pane_option_set(
    pane_id: u32,
    set: Result<OptionChange, RmuxError>,
    resize: Result<(), RmuxError>,
) -> (outcome: (Result<PaneOptionSetResponse, RmuxError>, Vec<PaneOptionEffect>))
    ensures
        match set {
            Err(refusal) => outcome.0 matches Err(error) && error@ == refusal@ && outcome.1@.len()
                == 0,
            Ok(change) => {
                &&& outcome.1@ == settled_effects(change, resize is Ok)
                &&& match resize {
                    Err(refusal) => outcome.0 matches Err(error) && error@ == refusal@,
                    Ok(()) => outcome.0 == Ok::<PaneOptionSetResponse, RmuxError>(
                        PaneOptionSetResponse {
                            pane_id,
                            name: change.name,
                            old_value: change.old_value,
                            new_value: change.new_value,
                            changed: change.changed,
                        },
                    ),
                }
            },
        },
{
    let mut effects: Vec<PaneOptionEffect> = Vec::new();
    let change = match set {
        Ok(change) => change,
        Err(error) => {
            return (Err(error), effects);
        },
    };
    if let Err(error) = resize {
        assert(effects@ =~= settled_effects(change, false));
        return (Err(error), effects);
    }
    effects.push(PaneOptionEffect::RefreshAttachedClients);
    if any(&change.affects_alerts) {
        effects.push(PaneOptionEffect::SyncAlertTimers);
    }
    assert(effects@ =~= settled_effects(change, true));
    let response = PaneOptionSetResponse {
        pane_id,
        name: change.name,
        old_value: change.old_value,
        new_value: change.new_value,
        changed: change.changed,
    };
    (Ok(response), effects)
}

/// Every change is recorded while the state is held, and is the last thing done
/// then.
pub proof fn changes_are_recorded_in_order(change: OptionChange, limits: bool)
    ensures
        change_effects(change, limits).last() == PaneOptionEffect::RecordOptionMutations,
        !settled_effects(change, true).contains(PaneOptionEffect::RecordOptionMutations),
{
}

/// The answer to a request for the value of an option; `looked_up` is its name
/// in full and its value.
pub fn handle_pane_option_get(
    store: &SessionStore,
    target: &PaneTargetRef,
    pane_id: Result<u32, RmuxError>,
    looked_up: Result<(String, Option<String>), RmuxError>,
) -> (result: Result<PaneOptionGetResponse, RmuxError>)
    ensures
        match (pane_by_id::resolved(*store, *target), pane_id, looked_up) {
            (PlaceModel::Refused(refusal), _, _) => result matches Err(error) && error@ == refusal,
            (PlaceModel::Found(_), Err(refusal), _) => result matches Err(error) && error@
                == refusal@,
            (PlaceModel::Found(_), Ok(_), Err(refusal)) => result matches Err(error) && error@
                == refusal@,
            (PlaceModel::Found(_), Ok(pane_id), Ok((name, value))) => result == Ok::<
                PaneOptionGetResponse,
                RmuxError,
            >(PaneOptionGetResponse { pane_id, name, value }),
        },
{
    match pane_option_target(store, target, pane_id) {
        Err(error) => Err(error),
        Ok((_, pane_id)) => match looked_up {
            Err(error) => Err(error),
            Ok((name, value)) => Ok(PaneOptionGetResponse { pane_id, name, value }),
        },
    }
}

/// A change of an option asks for what the option is about, between the limits of
/// transcripts, where its scope has them, and the resize; an option that the server does
/// not know asks for nothing but to be recorded.
pub proof fn a_change_asks_for_what_its_option_is_about(
    change: OptionChange,
    limits: bool,
    effects: Vec<PaneOptionEffect>,
)
    requires
        call_ensures(pane_option_effects, (&change, limits), effects),
    ensures
        change.known_option is None ==> effects@ == seq![PaneOptionEffect::RecordOptionMutations],
        change.known_option matches Some(option) ==> {
            let own = match option {
                KnownOption::AlternateScreen => seq![PaneOptionEffect::RefreshAlternateScreen],
                KnownOption::AllowSetTitle => seq![PaneOptionEffect::RefreshTitleRename],
                KnownOption::MessageLimit => seq![PaneOptionEffect::TrimMessageLog],
                KnownOption::Other => seq![],
            };
            effects@ == if limits {
                seq![PaneOptionEffect::RefreshTranscriptLimits]
            } else {
                seq![]
            } + own + seq![
                PaneOptionEffect::ResizeTerminals,
                PaneOptionEffect::RecordOptionMutations,
            ]
        },
{
}

/// What was set is drawn for the clients, and the timers of alerts follow where a
/// notification is about them; after a resize that failed, or where nothing was set,
/// neither is. The answer names the pane and both values.
pub proof fn a_set_option_is_answered_with_its_values(
    pane_id: u32,
    change: OptionChange,
    resize: Result<(), RmuxError>,
    outcome: (Result<PaneOptionSetResponse, RmuxError>, Vec<PaneOptionEffect>),
    alerts: int,
)
    requires
        call_ensures(handle_pane_option_set, (pane_id, Ok(change), resize), outcome),
        0 <= alerts < change.affects_alerts@.len(),
        change.affects_alerts@[alerts],
    ensures
        resize is Ok ==> outcome.1@ == seq![
            PaneOptionEffect::RefreshAttachedClients,
            PaneOptionEffect::SyncAlertTimers,
        ] && (outcome.0 matches Ok(response) && response.pane_id == pane_id && response.name
            == change.name && response.old_value == change.old_value && response.new_value
            == change.new_value && response.changed == change.changed),
        resize is Err ==> outcome.1@.len() == 0 && outcome.0 is Err,
{
    assert(change.affects_alerts@.contains(true));
}

/// Without a notification about alerts their timers stay.
pub proof fn timers_stay_where_no_alert_is_affected(
    pane_id: u32,
    change: OptionChange,
    outcome: (Result<PaneOptionSetResponse, RmuxError>, Vec<PaneOptionEffect>),
)
    requires
        call_ensures(handle_pane_option_set, (pane_id, Ok(change), Ok(())), outcome),
        forall|i: int|
            0 <= i < change.affects_alerts@.len() ==> !#[trigger] change.affects_alerts@[i],
    ensures
        outcome.1@ == seq![PaneOptionEffect::RefreshAttachedClients],
{
    if change.affects_alerts@.contains(true) {
        let i = choose|i: int|
            0 <= i < change.affects_alerts@.len() && change.affects_alerts@[i] == true;
        assert(!change.affects_alerts@[i]);
    }
}

} // verus!
