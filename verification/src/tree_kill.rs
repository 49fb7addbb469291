//! Killing what is chosen in the tree of sessions, windows and panes.
//!
//! Panes go before windows and windows before sessions, and windows of higher
//! index first, so that a kill does not move what is still to be killed. What
//! is chosen twice is killed once.
use crate::error;
use crate::error::{ErrorModel, RmuxError};
use crate::request_identity::ExpectedWindowOccurrenceIdentity;
use crate::scope_support;
use crate::text;
use std::collections::VecDeque;
use vstd::prelude::*;

verus! {

/// A session, window or pane in the tree.
#[derive(Debug, PartialEq, Eq)]
pub struct TreeTarget {
    pub session_name: String,
    pub session_id: u32,
    pub window_index: Option<u32>,
    pub window_id: Option<u32>,
    pub window_occurrence_id: Option<u64>,
    pub pane_index: Option<u32>,
    pub pane_id: Option<u32>,
}

impl Clone for TreeTarget {
    fn clone(&self) -> (copy: Self)
        ensures
            copy == *self,
    {
        TreeTarget {
            session_name: self.session_name.clone(),
            session_id: self.session_id,
            window_index: self.window_index,
            window_id: self.window_id,
            window_occurrence_id: self.window_occurrence_id,
            pane_index: self.pane_index,
            pane_id: self.pane_id,
        }
    }
}

/// What an item of a mode tree stands for.
#[derive(Debug, PartialEq, Eq)]
pub enum ModeTreeAction {
    Nothing,
    Buffer,
    Client,
    CustomizeOption,
    CustomizeKey,
    TreeTarget(TreeTarget),
}

impl Clone for ModeTreeAction {
    fn clone(&self) -> (copy: Self)
        ensures
            copy == *self,
    {
        match self {
            ModeTreeAction::Nothing => ModeTreeAction::Nothing,
            ModeTreeAction::Buffer => ModeTreeAction::Buffer,
            ModeTreeAction::Client => ModeTreeAction::Client,
            ModeTreeAction::CustomizeOption => ModeTreeAction::CustomizeOption,
            ModeTreeAction::CustomizeKey => ModeTreeAction::CustomizeKey,
            ModeTreeAction::TreeTarget(target) => ModeTreeAction::TreeTarget(target.clone()),
        }
    }
}

/// An item of a mode tree.
#[derive(Debug, PartialEq, Eq)]
pub struct ModeTreeItem {
    pub id: String,
    pub action: ModeTreeAction,
}

/// By what kills are ordered.
#[derive(Debug, PartialEq, Eq)]
pub struct TreeKillSortKey {
    pub rank: u8,
    pub session_name: String,
    pub session_id: u32,
    /// Higher indexes come first.
    pub window_index: u32,
    pub window_id: u32,
    pub window_occurrence_id: u64,
    pub pane_id: u32,
}

/// A key as a value.
pub struct KeyModel {
    pub rank: int,
    pub session_name: Seq<char>,
    pub session_id: int,
    pub window_index: int,
    pub window_id: int,
    pub window_occurrence_id: int,
    pub pane_id: int,
}

impl View for TreeKillSortKey {
    type V = KeyModel;

    open spec fn view(&self) -> KeyModel {
        KeyModel {
            rank: self.rank as int,
            session_name: self.session_name@,
            session_id: self.session_id as int,
            window_index: self.window_index as int,
            window_id: self.window_id as int,
            window_occurrence_id: self.window_occurrence_id as int,
            pane_id: self.pane_id as int,
        }
    }
}

/// A number, or the largest where it is not known.
pub open spec fn or_max32(n: Option<u32>) -> int {
    match n {
        Some(n) => n as int,
        None => u32::MAX as int,
    }
}

/// A number, or the largest where it is not known.
pub open spec fn or_max64(n: Option<u64>) -> int {
    match n {
        Some(n) => n as int,
        None => u64::MAX as int,
    }
}

/// The key of an action: panes have rank 0, windows 1, sessions 2, all else 3.
pub open spec fn sort_key(action: ModeTreeAction) -> KeyModel {
    match action {
        ModeTreeAction::TreeTarget(target) => match target.window_index {
            Some(window_index) => KeyModel {
                rank: if target.pane_index is Some {
                    0
                } else {
                    1
                },
                session_name: target.session_name@,
                session_id: target.session_id as int,
                window_index: window_index as int,
                window_id: or_max32(target.window_id),
                window_occurrence_id: or_max64(target.window_occurrence_id),
                pane_id: if target.pane_index is Some {
                    or_max32(target.pane_id)
                } else {
                    u32::MAX as int
                },
            },
            None => KeyModel {
                rank: 2,
                session_name: target.session_name@,
                session_id: target.session_id as int,
                window_index: 0,
                window_id: u32::MAX as int,
                window_occurrence_id: u64::MAX as int,
                pane_id: u32::MAX as int,
            },
        },
        _ => KeyModel {
            rank: 3,
            session_name: Seq::empty(),
            session_id: u32::MAX as int,
            window_index: 0,
            window_id: u32::MAX as int,
            window_occurrence_id: u64::MAX as int,
            pane_id: u32::MAX as int,
        },
    }
}

fn number_or_max(n: Option<u32>) -> (number: u32)
    ensures
        number == or_max32(n),
{
    match n {
        Some(n) => n,
        None => u32::MAX,
    }
}

/// The key of an action.
pub fn tree_kill_sort_key(action: &ModeTreeAction) -> (key: TreeKillSortKey)
    ensures
        key@ == sort_key(*action),
{
    match action {
        ModeTreeAction::TreeTarget(target) => match target.window_index {
            Some(window_index) => TreeKillSortKey {
                rank: if target.pane_index.is_some() {
                    0
                } else {
                    1
                },
                session_name: target.session_name.clone(),
                session_id: target.session_id,
                window_index,
                window_id: number_or_max(target.window_id),
                window_occurrence_id: match target.window_occurrence_id {
                    Some(id) => id,
                    None => u64::MAX,
                },
                pane_id: if target.pane_index.is_some() {
                    number_or_max(target.pane_id)
                } else {
                    u32::MAX
                },
            },
            None => TreeKillSortKey {
                rank: 2,
                session_name: target.session_name.clone(),
                session_id: target.session_id,
                window_index: 0,
                window_id: u32::MAX,
                window_occurrence_id: u64::MAX,
                pane_id: u32::MAX,
            },
        },
        _ => TreeKillSortKey {
            rank: 3,
            session_name: String::new(),
            session_id: u32::MAX,
            window_index: 0,
            window_id: u32::MAX,
            window_occurrence_id: u64::MAX,
            pane_id: u32::MAX,
        },
    }
}

/// The order of kills, by the parts of the key one after another.
pub open spec fn key_before(a: KeyModel, b: KeyModel) -> bool {
    if a.rank != b.rank {
        a.rank < b.rank
    } else if a.session_name != b.session_name {
        text::text_before(a.session_name, b.session_name)
    } else if a.session_id != b.session_id {
        a.session_id < b.session_id
    } else if a.window_index != b.window_index {
        a.window_index > b.window_index
    } else if a.window_id != b.window_id {
        a.window_id < b.window_id
    } else if a.window_occurrence_id != b.window_occurrence_id {
        a.window_occurrence_id < b.window_occurrence_id
    } else {
        a.pane_id < b.pane_id
    }
}

proof fn lemma_key_order(a: KeyModel, b: KeyModel, c: KeyModel)
    ensures
        !key_before(a, a),
        key_before(a, b) ==> !key_before(b, a),
        !key_before(b, a) && !key_before(c, b) ==> !key_before(c, a),
{
    text::lemma_text_order(a.session_name, b.session_name, c.session_name);
    text::lemma_text_order(b.session_name, c.session_name, a.session_name);
    text::lemma_text_order(c.session_name, b.session_name, a.session_name);
    text::lemma_text_order(c.session_name, a.session_name, b.session_name);
}

/// `actions` with `action` put before the first that comes after it.
pub open spec fn insert_action(actions: Seq<ModeTreeAction>, action: ModeTreeAction) -> Seq<
    ModeTreeAction,
>
    decreases actions.len(),
{
    if actions.len() == 0 || key_before(sort_key(action), sort_key(actions[0])) {
        seq![action] + actions
    } else {
        seq![actions[0]] + insert_action(actions.subrange(1, actions.len() as int), action)
    }
}

/// `actions` in the order of kills; what has equal keys keeps its order.
pub open spec fn sorted_actions(actions: Seq<ModeTreeAction>) -> Seq<ModeTreeAction>
    decreases actions.len(),
{
    if actions.len() == 0 {
        Seq::empty()
    } else {
        insert_action(sorted_actions(actions.drop_last()), actions.last())
    }
}

/// What an action kills, told apart by kind and lasting id: a pane, a window or
/// a session.
pub open spec fn stable_identity(action: ModeTreeAction) -> Option<(u8, u32)> {
    match action {
        ModeTreeAction::TreeTarget(target) => match (target.pane_id, target.window_id) {
            (Some(pane_id), _) => Some((0u8, pane_id)),
            (None, Some(window_id)) => Some((1u8, window_id)),
            (None, None) => Some((2u8, target.session_id)),
        },
        _ => None,
    }
}

/// What an action kills.
pub fn tree_kill_stable_identity(action: &ModeTreeAction) -> (identity: Option<(u8, u32)>)
    ensures
        identity == stable_identity(*action),
{
    match action {
        ModeTreeAction::TreeTarget(target) => match (target.pane_id, target.window_id) {
            (Some(pane_id), _) => Some((0, pane_id)),
            (None, Some(window_id)) => Some((1, window_id)),
            (None, None) => Some((2, target.session_id)),
        },
        _ => None,
    }
}

/// Some action kills what `identity` tells.
pub open spec fn has_identity(actions: Seq<ModeTreeAction>, identity: (u8, u32)) -> bool {
    exists|i: int|
        0 <= i < actions.len() && stable_identity(#[trigger] actions[i]) == Some(identity)
}

/// `actions` without those that kill what an earlier one kills.
pub open spec fn once_each(actions: Seq<ModeTreeAction>) -> Seq<ModeTreeAction>
    decreases actions.len(),
{
    if actions.len() == 0 {
        Seq::empty()
    } else {
        let before = once_each(actions.drop_last());
        match stable_identity(actions.last()) {
            Some(identity) => if has_identity(actions.drop_last(), identity) {
                before
            } else {
                before.push(actions.last())
            },
            None => before.push(actions.last()),
        }
    }
}

/// A kill, of exactly the session, or of exactly the window that it names.
#[derive(Debug, PartialEq, Eq)]
pub enum TreeKillStep {
    KillSession { session_name: String, session_id: u32 },
    KillWindow(ExpectedWindowOccurrenceIdentity),
    KillPane { window: ExpectedWindowOccurrenceIdentity, pane_id: u32 },
    /// The target cannot be told from another: stop.
    LostIdentity,
}

/// The kill that an action asks for.
pub open spec fn kill_of(action: ModeTreeAction) -> Option<TreeKillStep> {
    match action {
        ModeTreeAction::TreeTarget(target) => match target.window_index {
            None => Some(
                TreeKillStep::KillSession {
                    session_name: target.session_name,
                    session_id: target.session_id,
                },
            ),
            Some(window_index) => if target.window_id is Some
                && target.window_occurrence_id is Some {
                let window = ExpectedWindowOccurrenceIdentity {
                    name: target.session_name,
                    session_id: target.session_id,
                    window_index,
                    window_id: target.window_id->0,
                    occurrence_id: target.window_occurrence_id->0,
                };
                match (target.pane_index, target.pane_id) {
                    (None, _) => Some(TreeKillStep::KillWindow(window)),
                    (Some(_), Some(pane_id)) => Some(TreeKillStep::KillPane { window, pane_id }),
                    (Some(_), None) => Some(TreeKillStep::LostIdentity),
                }
            } else {
                Some(TreeKillStep::LostIdentity)
            },
        },
        _ => None,
    }
}

/// The kills that `actions` ask for, up to the first that cannot be told.
pub open spec fn kills_of(actions: Seq<ModeTreeAction>) -> Seq<TreeKillStep>
    decreases actions.len(),
{
    if actions.len() == 0 {
        Seq::empty()
    } else {
        let before = kills_of(actions.drop_last());
        if before.len() > 0 && before.last() == TreeKillStep::LostIdentity {
            before
        } else {
            match kill_of(actions.last()) {
                Some(kill) => before.push(kill),
                None => before,
            }
        }
    }
}

fn key_is_before(a: &TreeKillSortKey, b: &TreeKillSortKey) -> (before: bool)
    ensures
        before == key_before(a@, b@),
{
    if a.rank != b.rank {
        return a.rank < b.rank;
    }
    if !text::same_text(a.session_name.as_str(), b.session_name.as_str()) {
        return text::is_before(a.session_name.as_str(), b.session_name.as_str());
    }
    if a.session_id != b.session_id {
        return a.session_id < b.session_id;
    }
    if a.window_index != b.window_index {
        return a.window_index > b.window_index;
    }
    if a.window_id != b.window_id {
        return a.window_id < b.window_id;
    }
    if a.window_occurrence_id != b.window_occurrence_id {
        return a.window_occurrence_id < b.window_occurrence_id;
    }
    a.pane_id < b.pane_id
}

fn inserted(actions: &mut Vec<ModeTreeAction>, action: ModeTreeAction)
    ensures
        final(actions)@ == insert_action(old(actions)@, action),
{
    let key = tree_kill_sort_key(&action);
    let mut i: usize = 0;
    let ghost all = actions@;
    assert(all.subrange(0, all.len() as int) =~= all);
    assert(all.take(0) + insert_action(all, action) =~= insert_action(all, action));
    while i < actions.len() && !key_is_before(&key, &tree_kill_sort_key(&actions[i]))
        invariant
            i <= actions@.len(),
            actions@ == all,
            key@ == sort_key(action),
            all.take(i as int) + insert_action(all.subrange(i as int, all.len() as int), action)
                == insert_action(all, action),
        decreases actions.len() - i,
    {
        proof {
            let rest = all.subrange(i as int, all.len() as int);
            assert(rest[0] == all[i as int]);
            assert(rest.subrange(1, rest.len() as int) =~= all.subrange(i + 1, all.len() as int));
            let tail = insert_action(all.subrange(i + 1, all.len() as int), action);
            assert(all.take(i as int) + (seq![rest[0]] + tail) =~= all.take(i + 1) + tail);
        }
        i = i + 1;
    }
    proof {
        let rest = all.subrange(i as int, all.len() as int);
        if i < all.len() {
            assert(rest[0] == all[i as int]);
        }
        assert(all.take(i as int) + (seq![action] + rest) =~= all.insert(i as int, action));
    }
    actions.insert(i, action);
}

fn kill_step(action: &ModeTreeAction) -> (kill: Option<TreeKillStep>)
    ensures
        kill == kill_of(*action),
{
    match action {
        ModeTreeAction::TreeTarget(target) => match target.window_index {
            None => Some(
                TreeKillStep::KillSession {
                    session_name: target.session_name.clone(),
                    session_id: target.session_id,
                },
            ),
            Some(window_index) => match (target.window_id, target.window_occurrence_id) {
                (Some(window_id), Some(occurrence_id)) => {
                    let window = ExpectedWindowOccurrenceIdentity::new(
                        target.session_name.clone(),
                        target.session_id,
                        window_index,
                        window_id,
                        occurrence_id,
                    );
                    match (target.pane_index, target.pane_id) {
                        (None, _) => Some(TreeKillStep::KillWindow(window)),
                        (Some(_), Some(pane_id)) => Some(TreeKillStep::KillPane { window, pane_id }),
                        (Some(_), None) => Some(TreeKillStep::LostIdentity),
                    }
                },
                _ => Some(TreeKillStep::LostIdentity),
            },
        },
        _ => None,
    }
}

fn contains_identity(actions: &Vec<ModeTreeAction>, upto: usize, identity: (u8, u32)) -> (found:
    bool)
    requires
        upto <= actions@.len(),
    ensures
        found == has_identity(actions@.take(upto as int), identity),
{
    let mut i: usize = 0;
    while i < upto
        invariant
            i <= upto <= actions@.len(),
            forall|k: int| 0 <= k < i ==> stable_identity(#[trigger] actions@[k]) != Some(identity),
        decreases upto - i,
    {
        if let Some(other) = tree_kill_stable_identity(&actions[i]) {
            if other.0 == identity.0 && other.1 == identity.1 {
                assert(stable_identity(actions@.take(upto as int)[i as int]) == Some(identity));
                return true;
            }
        }
        i = i + 1;
    }
    false
}

/// The kills that `actions` ask for, in the order in which they are made. A
/// caller makes them one after another and stops at the first that fails.
pub fn perform_tree_kill_actions(actions: Vec<ModeTreeAction>) -> (kills: Vec<TreeKillStep>)
    ensures
        kills@ == kills_of(once_each(sorted_actions(actions@))),
{
    let mut sorted: Vec<ModeTreeAction> = Vec::new();
    let mut i: usize = 0;
    assert(actions@.take(0) =~= Seq::<ModeTreeAction>::empty());
    while i < actions.len()
        invariant
            i <= actions@.len(),
            sorted@ == sorted_actions(actions@.take(i as int)),
        decreases actions.len() - i,
    {
        proof {
            assert(actions@.take(i + 1).drop_last() =~= actions@.take(i as int));
            assert(actions@.take(i + 1).last() == actions@[i as int]);
        }
        inserted(&mut sorted, actions[i].clone());
        i = i + 1;
    }
    assert(actions@.take(i as int) =~= actions@);
    let mut kills: Vec<TreeKillStep> = Vec::new();
    let mut lost = false;
    let mut j: usize = 0;
    let ghost mut kept: Seq<ModeTreeAction> = Seq::empty();
    assert(sorted@.take(0) =~= Seq::<ModeTreeAction>::empty());
    while j < sorted.len()
        invariant
            j <= sorted@.len(),
            kept == once_each(sorted@.take(j as int)),
            kills@ == kills_of(kept),
            lost == (kills@.len() > 0 && kills@.last() == TreeKillStep::LostIdentity),
        decreases sorted.len() - j,
    {
        proof {
            assert(sorted@.take(j + 1).drop_last() =~= sorted@.take(j as int));
            assert(sorted@.take(j + 1).last() == sorted@[j as int]);
        }
        let repeated = match tree_kill_stable_identity(&sorted[j]) {
            Some(identity) => contains_identity(&sorted, j, identity),
            None => false,
        };
        if !repeated {
            proof {
                let next = kept.push(sorted@[j as int]);
                assert(next.drop_last() =~= kept);
                kept = next;
            }
            if !lost {
                if let Some(kill) = kill_step(&sorted[j]) {
                    lost = match kill {
                        TreeKillStep::LostIdentity => true,
                        _ => false,
                    };
                    kills.push(kill);
                }
            }
        }
        j = j + 1;
    }
    assert(sorted@.take(j as int) =~= sorted@);
    kills
}

/// The refusal of a kill whose target cannot be told.
pub fn lost_identity_error() -> (error: RmuxError)
    ensures
        error@ == lost_identity(),
{
    error::server_error("mode-tree target lost its stable identity")
}

/// Why there is no kill in the tree of a client that is gone, or that shows none.
pub open spec fn tree_refusal(mode_tree: Option<bool>) -> Option<ErrorModel> {
    match mode_tree {
        None => Some(ErrorModel::Server("attached client disappeared"@)),
        Some(false) => Some(ErrorModel::Server("mode-tree is not active"@)),
        Some(true) => None,
    }
}

/// Refuses a kill in the tree of a client that is gone, or that shows none.
/// `mode_tree` is whether the client shows a tree.
pub fn require_mode_tree(mode_tree: Option<bool>) -> (result: Result<(), RmuxError>)
    ensures
        scope_support::refusal_of(result) == tree_refusal(mode_tree),
{
    match mode_tree {
        None => Err(error::server_error("attached client disappeared")),
        Some(false) => Err(error::server_error("mode-tree is not active")),
        Some(true) => Ok(()),
    }
}

/// The actions of the items whose ids are among `ids`, in tree order.
pub open spec fn actions_of(items: Seq<ModeTreeItem>, ids: Seq<Seq<char>>) -> Seq<ModeTreeAction>
    decreases items.len(),
{
    if items.len() == 0 {
        Seq::empty()
    } else {
        let before = actions_of(items.drop_last(), ids);
        if ids.contains(items.last().id@) {
            before.push(items.last().action)
        } else {
            before
        }
    }
}

fn contains_text(texts: &Vec<String>, text: &str) -> (contains: bool)
    ensures
        contains == text::views(texts@).contains(text@),
{
    let mut i: usize = 0;
    while i < texts.len()
        invariant
            i <= texts@.len(),
            forall|k: int| 0 <= k < i ==> texts@[k]@ != text@,
        decreases texts.len() - i,
    {
        if text::same_text(texts[i].as_str(), text) {
            assert(text::views(texts@)[i as int] == text@);
            return true;
        }
        i = i + 1;
    }
    assert forall|k: int| 0 <= k < text::views(texts@).len() implies text::views(texts@)[k]
        != text@ by {
        assert(text::views(texts@)[k] == texts@[k]@);
    }
    false
}

/// The actions of the tagged items, in tree order.
pub fn tagged_tree_actions(items: &Vec<ModeTreeItem>, tagged: &Vec<String>) -> (actions: Vec<
    ModeTreeAction,
>)
    ensures
        actions@ == actions_of(items@, text::views(tagged@)),
{
    let mut actions: Vec<ModeTreeAction> = Vec::new();
    let mut i: usize = 0;
    assert(items@.take(0) =~= Seq::<ModeTreeItem>::empty());
    while i < items.len()
        invariant
            i <= items@.len(),
            actions@ == actions_of(items@.take(i as int), text::views(tagged@)),
        decreases items.len() - i,
    {
        proof {
            assert(items@.take(i + 1).drop_last() =~= items@.take(i as int));
            assert(items@.take(i + 1).last() == items@[i as int]);
        }
        if contains_text(tagged, items[i].id.as_str()) {
            actions.push(items[i].action.clone());
        }
        i = i + 1;
    }
    assert(items@.take(i as int) =~= items@);
    actions
}

/// The action of the first item with the id `id`.
pub open spec fn action_of(items: Seq<ModeTreeItem>, id: Seq<char>) -> Option<ModeTreeAction>
    decreases items.len(),
{
    if items.len() == 0 {
        None
    } else if items[0].id@ == id {
        Some(items[0].action)
    } else {
        action_of(items.subrange(1, items.len() as int), id)
    }
}

/// The action of the selected item, where one is selected and still there.
pub open spec fn selected_actions(items: Seq<ModeTreeItem>, selected: Option<&str>) -> Seq<
    ModeTreeAction,
> {
    match selected {
        None => Seq::empty(),
        Some(id) => match action_of(items, id@) {
            Some(action) => seq![action],
            None => Seq::empty(),
        },
    }
}

/// The action of the selected item. No other item takes the place of one that is
/// not there any more.
pub fn selected_tree_action(items: &Vec<ModeTreeItem>, selected: Option<&str>) -> (actions: Vec<
    ModeTreeAction,
>)
    ensures
        actions@ == selected_actions(items@, selected),
{
    let mut actions: Vec<ModeTreeAction> = Vec::new();
    let id = match selected {
        None => {
            return actions;
        },
        Some(id) => id,
    };
    let mut i: usize = 0;
    let ghost all = items@;
    assert(all.subrange(0, all.len() as int) =~= all);
    while i < items.len()
        invariant
            i <= items@.len(),
            all == items@,
            actions@.len() == 0,
            selected matches Some(s) && s@ == id@,
            action_of(all, id@) == action_of(all.subrange(i as int, all.len() as int), id@),
        decreases items.len() - i,
    {
        let ghost rest = all.subrange(i as int, all.len() as int);
        assert(rest[0] == all[i as int]);
        if text::same_text(items[i].id.as_str(), id) {
            actions.push(items[i].action.clone());
            assert(actions@ =~= seq![all[i as int].action]);
            return actions;
        }
        assert(rest.subrange(1, rest.len() as int) =~= all.subrange(i + 1, all.len() as int));
        i = i + 1;
    }
    actions
}

/// The kills of the selected item of a tree.
pub fn perform_tree_kill_current(
    mode_tree: Option<bool>,
    items: &Vec<ModeTreeItem>,
    selected: Option<&str>,
) -> (kills: Result<Vec<TreeKillStep>, RmuxError>)
    ensures
        match tree_refusal(mode_tree) {
            Some(refusal) => kills matches Err(error) && error@ == refusal,
            None => kills matches Ok(kills) && kills@ == kills_of(
                once_each(sorted_actions(selected_actions(items@, selected))),
            ),
        },
{
    match require_mode_tree(mode_tree) {
        Err(error) => Err(error),
        Ok(()) => Ok(perform_tree_kill_actions(selected_tree_action(items, selected))),
    }
}

/// The kills of the tagged items of a tree.
pub fn perform_tree_kill_tagged(
    mode_tree: Option<bool>,
    items: &Vec<ModeTreeItem>,
    tagged: &Vec<String>,
) -> (kills: Result<Vec<TreeKillStep>, RmuxError>)
    ensures
        match tree_refusal(mode_tree) {
            Some(refusal) => kills matches Err(error) && error@ == refusal,
            None => kills matches Ok(kills) && kills@ == kills_of(
                once_each(sorted_actions(actions_of(items@, text::views(tagged@)))),
            ),
        },
{
    match require_mode_tree(mode_tree) {
        Err(error) => Err(error),
        Ok(()) => Ok(perform_tree_kill_actions(tagged_tree_actions(items, tagged))),
    }
}

/// Where a run of kills stands.
#[derive(Debug, Clone, Copy, PartialEq, Eq, Structural)]
pub enum TreeKillStage {
    /// A kill was asked for.
    Killing,
    /// All kills are done, and the names that hooks go by are refreshed.
    Refreshing,
    /// The tree is drawn anew.
    Redrawing,
    Ended,
}

/// What a run of kills needs next.
#[derive(Debug, PartialEq, Eq)]
pub enum TreeKillNext {
    Kill(TreeKillStep),
    /// Refresh the names that hooks go by, and say whether the client still shows its
    /// tree.
    RefreshHookAliases,
    /// Draw the client's tree anew.
    RedrawTree,
    Ended(Result<(), RmuxError>),
}

/// What a run needs next, as a value.
pub enum TreeNextModel {
    Kill(TreeKillStep),
    RefreshHookAliases,
    RedrawTree,
    /// The run is over, with this refusal where there is one.
    Ended(Option<ErrorModel>),
}

impl View for TreeKillNext {
    type V = TreeNextModel;

    open spec fn view(&self) -> TreeNextModel {
        match *self {
            TreeKillNext::Kill(kill) => TreeNextModel::Kill(kill),
            TreeKillNext::RefreshHookAliases => TreeNextModel::RefreshHookAliases,
            TreeKillNext::RedrawTree => TreeNextModel::RedrawTree,
            TreeKillNext::Ended(result) => TreeNextModel::Ended(
                scope_support::refusal_of(result),
            ),
        }
    }
}

/// Kills that are done one after another.
#[derive(Debug, PartialEq, Eq)]
pub struct TreeKillRun {
    /// The kills that were not asked for yet.
    pub kills: VecDeque<TreeKillStep>,
    pub stage: TreeKillStage,
}

/// A run after a turn: the kills that are left, where it stands and what it needs.
pub type RunModel = (Seq<TreeKillStep>, TreeKillStage, TreeNextModel);

/// The refusal of a kill whose target cannot be told.
pub open spec fn lost_identity() -> ErrorModel {
    ErrorModel::Server("mode-tree target lost its stable identity"@)
}

/// The turn to the first of `kills`, or past the last.
pub open spec fn next_kill(kills: Seq<TreeKillStep>) -> RunModel {
    if kills.len() == 0 {
        (kills, TreeKillStage::Refreshing, TreeNextModel::RefreshHookAliases)
    } else if kills[0] == TreeKillStep::LostIdentity {
        (kills.skip(1), TreeKillStage::Ended, TreeNextModel::Ended(Some(lost_identity())))
    } else {
        (kills.skip(1), TreeKillStage::Killing, TreeNextModel::Kill(kills[0]))
    }
}

/// The turn of a run that stands at `stage` with `kills` left, on the answer to what it
/// asked for. A refusal ends it, with nothing done after it.
pub open spec fn run_turn(
    kills: Seq<TreeKillStep>,
    stage: TreeKillStage,
    answer: Result<bool, RmuxError>,
) -> RunModel {
    match (stage, answer) {
        (_, Err(error)) => (
            kills,
            TreeKillStage::Ended,
            TreeNextModel::Ended(Some(error@)),
        ),
        (TreeKillStage::Killing, Ok(_)) => next_kill(kills),
        (TreeKillStage::Refreshing, Ok(true)) => (
            kills,
            TreeKillStage::Redrawing,
            TreeNextModel::RedrawTree,
        ),
        (_, Ok(_)) => (kills, TreeKillStage::Ended, TreeNextModel::Ended(None)),
    }
}

impl TreeKillRun {
    fn go_on(&mut self) -> (next: TreeKillNext)
        ensures
            (final(self).kills@, final(self).stage, next@) == next_kill(old(self).kills@),
    {
        if self.kills.len() == 0 {
            self.stage = TreeKillStage::Refreshing;
            return TreeKillNext::RefreshHookAliases;
        }
        let ghost kills = self.kills@;
        let first = self.kills.pop_front();
        assert(self.kills@ =~= kills.skip(1));
        match first {
            Some(TreeKillStep::LostIdentity) => {
                self.stage = TreeKillStage::Ended;
                TreeKillNext::Ended(Err(lost_identity_error()))
            },
            Some(kill) => {
                self.stage = TreeKillStage::Killing;
                TreeKillNext::Kill(kill)
            },
            None => TreeKillNext::RefreshHookAliases,
        }
    }

    /// Begins to do `kills`, in order.
    pub fn begin(kills: Vec<TreeKillStep>) -> (begun: (Self, TreeKillNext))
        ensures
            (begun.0.kills@, begun.0.stage, begun.1@) == next_kill(kills@),
    {
        let mut kills = kills;
        let mut queue: VecDeque<TreeKillStep> = VecDeque::new();
        let ghost all = kills@;
        assert(kills@ + queue@ =~= all);
        while kills.len() > 0
            invariant
                kills@ + queue@ == all,
            decreases kills.len(),
        {
            let ghost left = kills@;
            let ghost taken = queue@;
            if let Some(kill) = kills.pop() {
                queue.push_front(kill);
                assert(kills@ + queue@ =~= left + taken);
            }
        }
        assert(queue@ =~= all);
        let mut run = TreeKillRun { kills: queue, stage: TreeKillStage::Killing };
        let next = run.go_on();
        (run, next)
    }

    /// Goes on once what was asked for is done, or was refused. `answer` is whether the
    /// client still shows its tree, where that was asked.
    pub fn advance(&mut self, answer: Result<bool, RmuxError>) -> (next: TreeKillNext)
        requires
            old(self).stage != TreeKillStage::Ended,
        ensures
            (final(self).kills@, final(self).stage, next@) == run_turn(
                old(self).kills@,
                old(self).stage,
                answer,
            ),
    {
        let shown = match answer {
            Ok(shown) => shown,
            Err(error) => {
                self.stage = TreeKillStage::Ended;
                return TreeKillNext::Ended(Err(error));
            },
        };
        match self.stage {
            TreeKillStage::Killing => self.go_on(),
            TreeKillStage::Refreshing => {
                if shown {
                    self.stage = TreeKillStage::Redrawing;
                    TreeKillNext::RedrawTree
                } else {
                    self.stage = TreeKillStage::Ended;
                    TreeKillNext::Ended(Ok(()))
                }
            },
            _ => {
                self.stage = TreeKillStage::Ended;
                TreeKillNext::Ended(Ok(()))
            },
        }
    }
}

/// A run of `kills` of which the first `done` went well.
pub open spec fn run_after(kills: Seq<TreeKillStep>, done: nat) -> RunModel
    decreases done,
{
    if done == 0 {
        next_kill(kills)
    } else {
        let before = run_after(kills, (done - 1) as nat);
        run_turn(before.0, before.1, Ok(true))
    }
}

/// Kills are done in order, and the run stops at the first that fails: what comes after
/// it is not killed, and nothing is refreshed. Only once all went well are the names
/// that hooks go by refreshed.
pub proof fn a_run_stops_at_the_first_failure(
    kills: Seq<TreeKillStep>,
    done: nat,
    error: RmuxError,
)
    requires
        done <= kills.len(),
        forall|i: int| 0 <= i < done ==> #[trigger] kills[i] != TreeKillStep::LostIdentity,
    ensures
        done == kills.len() ==> run_after(kills, done).2 == TreeNextModel::RefreshHookAliases,
        done < kills.len() && kills[done as int] == TreeKillStep::LostIdentity ==> run_after(
            kills,
            done,
        ).2 == TreeNextModel::Ended(Some(lost_identity())),
        done < kills.len() && kills[done as int] != TreeKillStep::LostIdentity ==> {
            let reached = run_after(kills, done);
            &&& reached.2 == TreeNextModel::Kill(kills[done as int])
            &&& run_turn(reached.0, reached.1, Err(error)).2 == TreeNextModel::Ended(Some(error@))
        },
{
    lemma_run_after(kills, done);
    if done < kills.len() {
        assert(kills.skip(done as int)[0] == kills[done as int]);
    }
}

proof fn lemma_run_after(kills: Seq<TreeKillStep>, done: nat)
    requires
        done <= kills.len(),
        forall|i: int| 0 <= i < done ==> #[trigger] kills[i] != TreeKillStep::LostIdentity,
    ensures
        run_after(kills, done) == next_kill(kills.skip(done as int)),
    decreases done,
{
    if done == 0 {
        assert(kills.skip(0) =~= kills);
    } else {
        lemma_run_after(kills, (done - 1) as nat);
        let rest = kills.skip(done - 1);
        assert(rest[0] == kills[done - 1]);
        assert(rest.skip(1) =~= kills.skip(done as int));
    }
}

proof fn lemma_insert_keeps_order(actions: Seq<ModeTreeAction>, action: ModeTreeAction)
    requires
        in_order(actions),
    ensures
        in_order(insert_action(actions, action)),
        insert_action(actions, action).to_multiset() == actions.to_multiset().insert(action),
    decreases actions.len(),
{
    broadcast use vstd::seq_lib::group_to_multiset_ensures;

    let inserted = insert_action(actions, action);
    if actions.len() == 0 || key_before(sort_key(action), sort_key(actions[0])) {
        assert(inserted =~= actions.insert(0, action));
        assert forall|i: int, j: int| 0 <= i < j < inserted.len() implies !key_before(
            sort_key(#[trigger] inserted[j]),
            sort_key(#[trigger] inserted[i]),
        ) by {
            if i == 0 {
                lemma_key_order(
                    sort_key(action),
                    sort_key(actions[0]),
                    sort_key(inserted[j]),
                );
                if j > 1 {
                    assert(inserted[j] == actions[j - 1]);
                    assert(!key_before(sort_key(actions[j - 1]), sort_key(actions[0])));
                } else {
                    assert(inserted[j] == actions[0]);
                }
            } else {
                assert(inserted[i] == actions[i - 1] && inserted[j] == actions[j - 1]);
            }
        }
    } else {
        let rest = actions.subrange(1, actions.len() as int);
        assert(in_order(rest)) by {
            assert forall|i: int, j: int| 0 <= i < j < rest.len() implies !key_before(
                sort_key(#[trigger] rest[j]),
                sort_key(#[trigger] rest[i]),
            ) by {
                assert(rest[i] == actions[i + 1] && rest[j] == actions[j + 1]);
            }
        }
        lemma_insert_keeps_order(rest, action);
        let tail = insert_action(rest, action);
        assert(inserted =~= tail.insert(0, actions[0]));
        assert(actions =~= rest.insert(0, actions[0]));
        assert(inserted.to_multiset() =~= actions.to_multiset().insert(action));
        assert forall|k: int| 0 <= k < tail.len() implies !key_before(
            sort_key(#[trigger] tail[k]),
            sort_key(actions[0]),
        ) by {
            assert(tail.to_multiset().count(tail[k]) > 0);
            if tail[k] != action {
                assert(rest.to_multiset().count(tail[k]) > 0);
                assert(rest.contains(tail[k]));
                let m = choose|m: int| 0 <= m < rest.len() && rest[m] == tail[k];
                assert(actions[m + 1] == tail[k]);
                assert(!key_before(sort_key(actions[m + 1]), sort_key(actions[0])));
            }
        }
        assert forall|i: int, j: int| 0 <= i < j < inserted.len() implies !key_before(
            sort_key(#[trigger] inserted[j]),
            sort_key(#[trigger] inserted[i]),
        ) by {
            assert(inserted[j] == tail[j - 1]);
            if i > 0 {
                assert(inserted[i] == tail[i - 1]);
            }
        }
    }
}

/// No action comes before an earlier one.
pub open spec fn in_order(actions: Seq<ModeTreeAction>) -> bool {
    forall|i: int, j: int|
        0 <= i < j < actions.len() ==> !key_before(
            sort_key(#[trigger] actions[j]),
            sort_key(#[trigger] actions[i]),
        )
}

/// Sorting keeps every action and puts all in the order of kills; in particular
/// panes come before windows, windows before sessions, and of one session the
/// windows of higher index first.
pub proof fn kills_are_ordered(actions: Seq<ModeTreeAction>)
    ensures
        in_order(sorted_actions(actions)),
        sorted_actions(actions).to_multiset() == actions.to_multiset(),
        forall|i: int, j: int|
            0 <= i < j < sorted_actions(actions).len() ==> sort_key(
                #[trigger] sorted_actions(actions)[i],
            ).rank <= sort_key(#[trigger] sorted_actions(actions)[j]).rank,
    decreases actions.len(),
{
    broadcast use vstd::seq_lib::group_to_multiset_ensures;

    if actions.len() > 0 {
        kills_are_ordered(actions.drop_last());
        lemma_insert_keeps_order(sorted_actions(actions.drop_last()), actions.last());
        assert(actions =~= actions.drop_last().push(actions.last()));
    } else {
        assert(actions =~= Seq::<ModeTreeAction>::empty());
    }
}

/// Nothing is killed twice, and everything that is chosen is killed once.
pub proof fn each_target_is_killed_once(actions: Seq<ModeTreeAction>, identity: (u8, u32))
    ensures
        has_identity(once_each(actions), identity) == has_identity(actions, identity),
        forall|i: int, j: int|
            0 <= i < j < once_each(actions).len() && stable_identity(
                #[trigger] once_each(actions)[i],
            ) == Some(identity) ==> stable_identity(#[trigger] once_each(actions)[j]) != Some(
                identity,
            ),
    decreases actions.len(),
{
    if actions.len() > 0 {
        let before = actions.drop_last();
        let kept = once_each(before);
        let all = once_each(actions);
        let last = actions.last();
        each_target_is_killed_once(before, identity);
        assert(has_identity(actions, identity) == (has_identity(before, identity)
            || stable_identity(last) == Some(identity))) by {
            if has_identity(before, identity) {
                let i = choose|i: int|
                    0 <= i < before.len() && stable_identity(#[trigger] before[i]) == Some(
                        identity,
                    );
                assert(actions[i] == before[i]);
            }
            if stable_identity(last) == Some(identity) {
                assert(actions[actions.len() - 1] == last);
            }
            if has_identity(actions, identity) && stable_identity(last) != Some(identity) {
                let i = choose|i: int|
                    0 <= i < actions.len() && stable_identity(#[trigger] actions[i]) == Some(
                        identity,
                    );
                assert(before[i] == actions[i]);
            }
        }
        if all.len() > kept.len() {
            assert(all == kept.push(last));
            assert(has_identity(all, identity) == (has_identity(kept, identity) || stable_identity(
                last,
            ) == Some(identity))) by {
                if has_identity(kept, identity) {
                    let i = choose|i: int|
                        0 <= i < kept.len() && stable_identity(#[trigger] kept[i]) == Some(
                            identity,
                        );
                    assert(all[i] == kept[i]);
                }
                assert(all[kept.len() as int] == last);
                if has_identity(all, identity) && stable_identity(last) != Some(identity) {
                    let i = choose|i: int|
                        0 <= i < all.len() && stable_identity(#[trigger] all[i]) == Some(identity);
                    assert(kept[i] == all[i]);
                }
            }
            assert forall|i: int, j: int|
                0 <= i < j < all.len() && stable_identity(#[trigger] all[i]) == Some(
                    identity,
                ) implies stable_identity(#[trigger] all[j]) != Some(identity) by {
                assert(all[i] == kept[i]);
                if j < kept.len() {
                    assert(all[j] == kept[j]);
                } else {
                    assert(has_identity(kept, identity));
                }
            }
        } else {
            assert(all == kept);
        }
    }
}

/// Panes are killed before windows and windows before sessions, whatever they belong to.
pub proof fn parts_are_killed_before_wholes(pane: TreeTarget, window: TreeTarget, session: TreeTarget)
    requires
        pane.window_index is Some && pane.pane_index is Some,
        window.window_index is Some && window.pane_index is None,
        session.window_index is None,
    ensures
        key_before(
            sort_key(ModeTreeAction::TreeTarget(pane)),
            sort_key(ModeTreeAction::TreeTarget(window)),
        ),
        key_before(
            sort_key(ModeTreeAction::TreeTarget(window)),
            sort_key(ModeTreeAction::TreeTarget(session)),
        ),
        key_before(
            sort_key(ModeTreeAction::TreeTarget(session)),
            sort_key(ModeTreeAction::Nothing),
        ),
{
}

/// Of one kind, what belongs to a session comes in the order of the sessions' names;
/// of one session, windows of a higher index come first; of one window, panes of a lower
/// id.
pub proof fn higher_windows_are_killed_first(a: TreeTarget, b: TreeTarget, low: u32, high: u32)
    requires
        a.window_index == Some(high) && b.window_index == Some(low),
        a.pane_index is Some == b.pane_index is Some,
    ensures
        a.session_name@ != b.session_name@ ==> key_before(
            sort_key(ModeTreeAction::TreeTarget(a)),
            sort_key(ModeTreeAction::TreeTarget(b)),
        ) == text::text_before(a.session_name@, b.session_name@),
        a.session_name@ == b.session_name@ && a.session_id == b.session_id && low < high
            ==> key_before(
            sort_key(ModeTreeAction::TreeTarget(a)),
            sort_key(ModeTreeAction::TreeTarget(b)),
        ) && !key_before(
            sort_key(ModeTreeAction::TreeTarget(b)),
            sort_key(ModeTreeAction::TreeTarget(a)),
        ),
        a.session_name@ == b.session_name@ && a.session_id == b.session_id && low == high
            && a.window_id == b.window_id && a.window_occurrence_id == b.window_occurrence_id
            && a.pane_index is Some ==> (a.pane_id matches Some(first) ==> (b.pane_id matches Some(
            second,
        ) ==> key_before(
            sort_key(ModeTreeAction::TreeTarget(a)),
            sort_key(ModeTreeAction::TreeTarget(b)),
        ) == (first < second))),
{
}

/// What is chosen is what is killed: a session by its name and id, a window by its link,
/// a pane by its window and id; what cannot be told from another is not killed, and what
/// is none of them asks for no kill.
pub proof fn what_is_chosen_is_what_is_killed(target: TreeTarget, window_index: u32)
    ensures
        ({
            let kill = kill_of(ModeTreeAction::TreeTarget(target));
            &&& target.window_index is None ==> kill == Some(
                TreeKillStep::KillSession {
                    session_name: target.session_name,
                    session_id: target.session_id,
                },
            )
            &&& target.window_index == Some(window_index) ==> {
                &&& target.window_id is None || target.window_occurrence_id is None ==> kill == Some(
                    TreeKillStep::LostIdentity,
                )
                &&& target.window_id matches Some(window_id) ==> (target.window_occurrence_id
                    matches Some(occurrence_id) ==> {
                    let window = ExpectedWindowOccurrenceIdentity {
                        name: target.session_name,
                        session_id: target.session_id,
                        window_index,
                        window_id,
                        occurrence_id,
                    };
                    &&& target.pane_index is None ==> kill == Some(TreeKillStep::KillWindow(window))
                    &&& target.pane_index is Some && target.pane_id is None ==> kill == Some(
                        TreeKillStep::LostIdentity,
                    )
                    &&& target.pane_index is Some ==> (target.pane_id matches Some(pane_id) ==> kill
                        == Some(TreeKillStep::KillPane { window, pane_id }))
                })
            }
        }),
        kill_of(ModeTreeAction::Nothing) is None && kill_of(ModeTreeAction::Buffer) is None
            && kill_of(ModeTreeAction::Client) is None && kill_of(ModeTreeAction::CustomizeOption)
            is None && kill_of(ModeTreeAction::CustomizeKey) is None,
{
}

/// Two items kill the same where they are panes, windows or sessions of one id; a window
/// and a session of one number are not the same.
pub proof fn targets_are_told_apart_by_kind_and_id(target: TreeTarget, identity: Option<(u8, u32)>)
    requires
        call_ensures(tree_kill_stable_identity, (&ModeTreeAction::TreeTarget(target),), identity),
    ensures
        target.pane_id matches Some(id) ==> identity == Some((0u8, id)),
        target.pane_id is None ==> (target.window_id matches Some(id) ==> identity == Some(
            (1u8, id),
        )),
        target.pane_id is None && target.window_id is None ==> identity == Some(
            (2u8, target.session_id),
        ),
{
}

/// Kills keep the order of their items and stop at the first that cannot be told.
pub proof fn kills_stop_at_what_cannot_be_told(actions: Seq<ModeTreeAction>, action: ModeTreeAction)
    ensures
        kills_of(actions.push(action)) == if kills_of(actions).len() > 0 && kills_of(
            actions,
        ).last() is LostIdentity {
            kills_of(actions)
        } else {
            match kill_of(action) {
                Some(kill) => kills_of(actions).push(kill),
                None => kills_of(actions),
            }
        },
        kills_of(seq![]).len() == 0,
{
    assert(actions.push(action).drop_last() =~= actions);
}

/// The tagged items are those whose ids are tagged, in the order of the tree; the
/// selected item is the first with the id that is selected.
pub proof fn items_are_chosen_by_their_ids(
    items: Seq<ModeTreeItem>,
    item: ModeTreeItem,
    ids: Seq<Seq<char>>,
    id: Seq<char>,
)
    ensures
        actions_of(items.push(item), ids) == if ids.contains(item.id@) {
            actions_of(items, ids).push(item.action)
        } else {
            actions_of(items, ids)
        },
        actions_of(seq![], ids).len() == 0,
        action_of(seq![item] + items, id) == if item.id@ == id {
            Some(item.action)
        } else {
            action_of(items, id)
        },
        action_of(seq![], id) is None,
{
    assert(items.push(item).drop_last() =~= items);
    let all = seq![item] + items;
    assert(all[0] == item);
    assert(all.subrange(1, all.len() as int) =~= items);
}

/// There is a kill in a tree only where its client is there and shows one.
pub proof fn a_kill_needs_a_tree(
    gone: Result<(), RmuxError>,
    hidden: Result<(), RmuxError>,
    shown: Result<(), RmuxError>,
)
    requires
        call_ensures(require_mode_tree, (None,), gone),
        call_ensures(require_mode_tree, (Some(false),), hidden),
        call_ensures(require_mode_tree, (Some(true),), shown),
    ensures
        gone matches Err(error) && error@ == ErrorModel::Server("attached client disappeared"@),
        hidden matches Err(error) && error@ == ErrorModel::Server("mode-tree is not active"@),
        shown is Ok,
{
}

/// Once all kills are done the names of hooks are refreshed, and the tree is drawn anew
/// where it is still shown; then the run is over.
pub proof fn a_run_ends_by_drawing_its_tree(kills: Seq<TreeKillStep>, answer: bool)
    ensures
        next_kill(seq![]).2 is RefreshHookAliases,
        run_turn(kills, TreeKillStage::Refreshing, Ok(true)).2 is RedrawTree,
        run_turn(kills, TreeKillStage::Refreshing, Ok(false)).2 == TreeNextModel::Ended(None),
        run_turn(kills, TreeKillStage::Redrawing, Ok(answer)).2 == TreeNextModel::Ended(None),
        lost_identity() == ErrorModel::Server("mode-tree target lost its stable identity"@),
{
}

/// A key of the order is seen by its parts, each in its place.
pub proof fn a_key_is_seen_by_its_parts(key: TreeKillSortKey)
    ensures
        key@.rank == key.rank && key@.session_name == key.session_name@ && key@.session_id
            == key.session_id && key@.window_index == key.window_index && key@.window_id
            == key.window_id && key@.window_occurrence_id == key.window_occurrence_id
            && key@.pane_id == key.pane_id,
{
}

/// What a run needs next is seen as what it is.
pub proof fn what_a_run_needs_is_seen_as_it_is(kill: TreeKillStep, error: RmuxError)
    ensures
        TreeKillNext::Kill(kill)@ == TreeNextModel::Kill(kill),
        TreeKillNext::RefreshHookAliases@ == TreeNextModel::RefreshHookAliases,
        TreeKillNext::RedrawTree@ == TreeNextModel::RedrawTree,
        TreeKillNext::Ended(Ok(()))@ == TreeNextModel::Ended(None),
        TreeKillNext::Ended(Err(error))@ == TreeNextModel::Ended(Some(error@)),
{
}

/// The selected item is killed alone, and nothing is where none is selected.
pub proof fn the_selected_item_is_killed_alone(
    items: Vec<ModeTreeItem>,
    target: TreeTarget,
    id: &str,
    none: Result<Vec<TreeKillStep>, RmuxError>,
    one: Result<Vec<TreeKillStep>, RmuxError>,
)
    requires
        call_ensures(perform_tree_kill_current, (Some(true), &items, None), none),
        call_ensures(perform_tree_kill_current, (Some(true), &items, Some(id)), one),
        action_of(items@, id@) == Some(ModeTreeAction::TreeTarget(target)),
        target.window_index is None,
    ensures
        none matches Ok(kills) && kills@.len() == 0,
        one matches Ok(kills) && kills@ == seq![
            TreeKillStep::KillSession {
                session_name: target.session_name,
                session_id: target.session_id,
            },
        ],
{
    let action = ModeTreeAction::TreeTarget(target);
    let empty = Seq::<ModeTreeAction>::empty();
    assert(sorted_actions(empty) =~= empty);
    assert(once_each(empty) =~= empty);
    assert(kills_of(empty) =~= Seq::<TreeKillStep>::empty());
    let single = seq![action];
    assert(single.drop_last() =~= empty);
    assert(insert_action(empty, action) =~= single);
    assert(sorted_actions(single) =~= single);
    assert(empty.push(action) =~= single);
    assert(!has_identity(empty, stable_identity(action)->0));
    assert(once_each(single) =~= single);
    assert(kills_of(single) =~= seq![kill_of(action)->0]);
}

/// A session's key has nothing of a window or pane in it; a window's nothing of a pane;
/// and what is not known counts as the largest.
pub proof fn a_key_says_only_what_is_known(
    target: TreeTarget,
    window_index: u32,
    session: TreeKillSortKey,
    window: TreeKillSortKey,
    whole: TreeTarget,
)
    requires
        target.window_index == Some(window_index),
        target.pane_index is None,
        whole.window_index is None,
        call_ensures(tree_kill_sort_key, (&ModeTreeAction::TreeTarget(target),), window),
        call_ensures(tree_kill_sort_key, (&ModeTreeAction::TreeTarget(whole),), session),
    ensures
        session.rank == 2 && session.session_name@ == whole.session_name@ && session.session_id
            == whole.session_id && session.window_index == 0 && session.window_id == u32::MAX
            && session.window_occurrence_id == u64::MAX && session.pane_id == u32::MAX,
        window.rank == 1 && window.session_name@ == target.session_name@ && window.session_id
            == target.session_id && window.window_index == window_index && window.pane_id
            == u32::MAX,
        window.window_id == match target.window_id {
            Some(id) => id,
            None => u32::MAX,
        },
        window.window_occurrence_id == match target.window_occurrence_id {
            Some(id) => id,
            None => u64::MAX,
        },
{
    assert(session@ == sort_key(ModeTreeAction::TreeTarget(whole)));
    assert(window@ == sort_key(ModeTreeAction::TreeTarget(target)));
}

/// Where a run stands follows what it needs: it kills while there are kills, refreshes
/// after the last, redraws then, and is over after that or after a refusal.
pub proof fn a_run_stands_where_it_needs_to(kills: Seq<TreeKillStep>, error: RmuxError, answer: bool)
    ensures
        kills.len() == 0 ==> next_kill(kills) == (
            kills,
            TreeKillStage::Refreshing,
            TreeNextModel::RefreshHookAliases,
        ),
        kills.len() > 0 && kills[0] !is LostIdentity ==> next_kill(kills) == (
            kills.subrange(1, kills.len() as int),
            TreeKillStage::Killing,
            TreeNextModel::Kill(kills[0]),
        ),
        kills.len() > 0 && kills[0] is LostIdentity ==> next_kill(kills).1 is Ended,
        run_turn(kills, TreeKillStage::Killing, Ok(answer)) == next_kill(kills),
        run_turn(kills, TreeKillStage::Refreshing, Ok(true)).1 is Redrawing,
        run_turn(kills, TreeKillStage::Refreshing, Ok(false)).1 is Ended,
        run_turn(kills, TreeKillStage::Redrawing, Ok(answer)).1 is Ended,
        forall|stage: TreeKillStage| (#[trigger] run_turn(kills, stage, Err(error))) == (
            kills,
            TreeKillStage::Ended,
            TreeNextModel::Ended(Some(error@)),
        ),
{
    if kills.len() > 0 {
        assert(kills.skip(1) =~= kills.subrange(1, kills.len() as int));
    }
}

} // verus!
