//! Keys of an attached client in copy mode.
use crate::text;
use vstd::prelude::*;

verus! {

/// Which keys move and search in copy mode.
#[derive(Debug, Clone, Copy, PartialEq, Eq, Structural)]
pub enum ModeKeys {
    Emacs,
    Vi,
}

/// Which way a search goes.
#[derive(Debug, Clone, Copy, PartialEq, Eq, Structural)]
pub enum AttachedCopyModeSearchDirection {
    Forward,
    Backward,
}

/// A key, as prompts and copy mode read it.
#[derive(Debug, PartialEq, Eq)]
pub enum PromptInputEvent {
    Char(char),
    KeyName(String),
    Enter,
    Escape,
    Right,
    Left,
    Down,
    Up,
    /// Any other key.
    Other,
}

/// What a key does in copy mode.
#[derive(Debug, Clone, Copy, PartialEq, Eq)]
pub enum AttachedCopyModeInputAction {
    Command(&'static str),
    Search(AttachedCopyModeSearchDirection),
    Ignore,
}

/// The same as a value.
pub enum CopyModeActionModel {
    Command(Seq<char>),
    Search(AttachedCopyModeSearchDirection),
    Ignore,
}

impl View for AttachedCopyModeInputAction {
    type V = CopyModeActionModel;

    open spec fn view(&self) -> CopyModeActionModel {
        match self {
            AttachedCopyModeInputAction::Command(command) => CopyModeActionModel::Command(command@),
            AttachedCopyModeInputAction::Search(direction) => {
                CopyModeActionModel::Search(*direction)
            },
            AttachedCopyModeInputAction::Ignore => CopyModeActionModel::Ignore,
        }
    }
}

/// The key is the character `c`, or has it for its name.
pub open spec fn is_key(event: PromptInputEvent, c: char, name: Seq<char>) -> bool {
    match event {
        PromptInputEvent::Char(other) => other == c,
        PromptInputEvent::KeyName(other) => other@ == name,
        _ => false,
    }
}

/// What a key does in copy mode: the keys that are the same in all modes.
pub open spec fn common_action(event: PromptInputEvent) -> CopyModeActionModel {
    match event {
        PromptInputEvent::Enter => CopyModeActionModel::Command("copy-selection-no-clear"@),
        PromptInputEvent::Right => CopyModeActionModel::Command("cursor-right"@),
        PromptInputEvent::Left => CopyModeActionModel::Command("cursor-left"@),
        PromptInputEvent::Down => CopyModeActionModel::Command("cursor-down"@),
        PromptInputEvent::Up => CopyModeActionModel::Command("cursor-up"@),
        PromptInputEvent::Escape => CopyModeActionModel::Command("cancel"@),
        _ => if is_key(event, ' ', " "@) || is_key(event, ' ', "Space"@) {
            CopyModeActionModel::Command("begin-selection"@)
        } else if is_key(event, 'q', "q"@) {
            CopyModeActionModel::Command("cancel"@)
        } else {
            CopyModeActionModel::Ignore
        },
    }
}

/// What a key does in copy mode.
pub open spec fn copy_mode_action(mode_keys: ModeKeys, event: PromptInputEvent) ->
    CopyModeActionModel {
    if mode_keys == ModeKeys::Vi && is_key(event, '/', "/"@) {
        CopyModeActionModel::Search(AttachedCopyModeSearchDirection::Forward)
    } else if mode_keys == ModeKeys::Vi && is_key(event, '?', "?"@) {
        CopyModeActionModel::Search(AttachedCopyModeSearchDirection::Backward)
    } else {
        common_action(event)
    }
}

fn event_is_key(event: &PromptInputEvent, c: char, name: &str) -> (is: bool)
    ensures
        is == is_key(*event, c, name@),
{
    match event {
        PromptInputEvent::Char(other) => *other == c,
        PromptInputEvent::KeyName(other) => text::same_text(other.as_str(), name),
        _ => false,
    }
}

/// What a key does in copy mode.
pub fn attached_copy_mode_input_action(mode_keys: ModeKeys, event: &PromptInputEvent) -> (action:
    AttachedCopyModeInputAction)
    ensures
        action@ == copy_mode_action(mode_keys, *event),
{
    if mode_keys == ModeKeys::Vi {
        if event_is_key(event, '/', "/") {
            return AttachedCopyModeInputAction::Search(AttachedCopyModeSearchDirection::Forward);
        }
        if event_is_key(event, '?', "?") {
            return AttachedCopyModeInputAction::Search(AttachedCopyModeSearchDirection::Backward);
        }
    }
    let command = match event {
        PromptInputEvent::Enter => "copy-selection-no-clear",
        PromptInputEvent::Right => "cursor-right",
        PromptInputEvent::Left => "cursor-left",
        PromptInputEvent::Down => "cursor-down",
        PromptInputEvent::Up => "cursor-up",
        PromptInputEvent::Escape => "cancel",
        _ => {
            if event_is_key(event, ' ', " ") || event_is_key(event, ' ', "Space") {
                "begin-selection"
            } else if event_is_key(event, 'q', "q") {
                "cancel"
            } else {
                return AttachedCopyModeInputAction::Ignore;
            }
        },
    };
    AttachedCopyModeInputAction::Command(command)
}

/// Only the search keys differ between the modes.
pub proof fn modes_differ_in_search_only(event: PromptInputEvent)
    ensures
        copy_mode_action(ModeKeys::Vi, event) is Search || copy_mode_action(ModeKeys::Vi, event)
            == copy_mode_action(ModeKeys::Emacs, event),
        !(copy_mode_action(ModeKeys::Emacs, event) is Search),
{
}

/// The arrows move the cursor their own way, Enter copies, the space key begins a
/// selection, and Escape and `q` leave, whichever keys the mode has; keys without a
/// meaning do nothing.
pub proof fn keys_of_copy_mode_do_what_they_say(
    mode_keys: ModeKeys,
    event: PromptInputEvent,
    action: AttachedCopyModeInputAction,
)
    requires
        call_ensures(attached_copy_mode_input_action, (mode_keys, &event), action),
    ensures
        event is Right ==> action@ == CopyModeActionModel::Command("cursor-right"@),
        event is Left ==> action@ == CopyModeActionModel::Command("cursor-left"@),
        event is Down ==> action@ == CopyModeActionModel::Command("cursor-down"@),
        event is Up ==> action@ == CopyModeActionModel::Command("cursor-up"@),
        event is Enter ==> action@ == CopyModeActionModel::Command("copy-selection-no-clear"@),
        event is Escape ==> action@ == CopyModeActionModel::Command("cancel"@),
        event is Other ==> action@ is Ignore,
        event matches PromptInputEvent::Char(c) ==> {
            &&& c == ' ' ==> action@ == CopyModeActionModel::Command("begin-selection"@)
            &&& c == 'q' ==> action@ == CopyModeActionModel::Command("cancel"@)
            &&& c == '/' ==> action@ == if mode_keys is Vi {
                CopyModeActionModel::Search(AttachedCopyModeSearchDirection::Forward)
            } else {
                CopyModeActionModel::Ignore
            }
            &&& c == '?' ==> action@ == if mode_keys is Vi {
                CopyModeActionModel::Search(AttachedCopyModeSearchDirection::Backward)
            } else {
                CopyModeActionModel::Ignore
            }
            &&& c != ' ' && c != 'q' && c != '/' && c != '?' ==> action@ is Ignore
        },
{
}

/// A key that comes by its name does what its character does.
pub proof fn a_named_key_is_its_character(
    mode_keys: ModeKeys,
    name: String,
    c: char,
    named: AttachedCopyModeInputAction,
    typed: AttachedCopyModeInputAction,
)
    requires
        call_ensures(
            attached_copy_mode_input_action,
            (mode_keys, &PromptInputEvent::KeyName(name)),
            named,
        ),
        call_ensures(
            attached_copy_mode_input_action,
            (mode_keys, &PromptInputEvent::Char(c)),
            typed,
        ),
        name@ == seq![c] || (c == ' ' && name@ == "Space"@),
    ensures
        named@ == typed@,
{
    reveal_strlit("/");
    reveal_strlit("?");
    reveal_strlit(" ");
    reveal_strlit("q");
    reveal_strlit("Space");
    assert("/"@ =~= seq!['/']);
    assert("?"@ =~= seq!['?']);
    assert(" "@ =~= seq![' ']);
    assert("q"@ =~= seq!['q']);
    assert(seq![c][0] == c);
    assert("Space"@.len() == 5 && seq![c].len() == 1);
    assert(seq!['/'][0] == '/' && seq!['?'][0] == '?' && seq![' '][0] == ' ' && seq!['q'][0] == 'q');
}

/// What a key does is seen as it is.
pub proof fn an_action_is_seen_as_it_is(
    command: &'static str,
    direction: AttachedCopyModeSearchDirection,
)
    ensures
        AttachedCopyModeInputAction::Command(command)@ == CopyModeActionModel::Command(command@),
        AttachedCopyModeInputAction::Search(direction)@ == CopyModeActionModel::Search(direction),
        AttachedCopyModeInputAction::Ignore@ == CopyModeActionModel::Ignore,
{
}

} // verus!
