//! Checks shared by requests: which client a request means, and whether the
//! place that it names exists.
use crate::error;
use crate::error::{ErrorModel, RmuxError};
use crate::sessions;
use crate::sessions::{PaneTarget, SessionStore, WindowTarget};
use crate::text;
use vstd::prelude::*;

verus! {

/// The refusal of a command that needs an attached client.
pub open spec fn client_required(command_name: Seq<char>) -> ErrorModel {
    ErrorModel::Server(command_name + " requires an attached client"@)
}

/// The refusal of a command that needs an attached client.
pub fn attached_client_required(command_name: &str) -> (error: RmuxError)
    ensures
        error@ == client_required(command_name@),
{
    RmuxError::Server(text::concat2(command_name, " requires an attached client"))
}

/// `pids` with `pid` put before the first greater one.
pub open spec fn insert_pid(pids: Seq<u32>, pid: u32) -> Seq<u32>
    decreases pids.len(),
{
    if pids.len() == 0 || pid < pids[0] {
        seq![pid] + pids
    } else {
        seq![pids[0]] + insert_pid(pids.subrange(1, pids.len() as int), pid)
    }
}

/// `pids` in ascending order.
pub open spec fn sorted_pids(pids: Seq<u32>) -> Seq<u32>
    decreases pids.len(),
{
    if pids.len() == 0 {
        Seq::empty()
    } else {
        insert_pid(sorted_pids(pids.drop_last()), pids.last())
    }
}

proof fn lemma_insert_pid(pids: Seq<u32>, pid: u32)
    requires
        forall|i: int, j: int| 0 <= i <= j < pids.len() ==> pids[i] <= pids[j],
    ensures
        insert_pid(pids, pid).to_multiset() == pids.to_multiset().insert(pid),
        insert_pid(pids, pid).len() == pids.len() + 1,
        forall|i: int, j: int|
            0 <= i <= j < insert_pid(pids, pid).len() ==> insert_pid(pids, pid)[i] <= insert_pid(
                pids,
                pid,
            )[j],
    decreases pids.len(),
{
    broadcast use vstd::seq_lib::group_to_multiset_ensures;

    if pids.len() == 0 || pid < pids[0] {
        assert(seq![pid] + pids =~= pids.insert(0, pid));
    } else {
        let rest = pids.subrange(1, pids.len() as int);
        lemma_insert_pid(rest, pid);
        assert(pids =~= seq![pids[0]] + rest);
        assert(seq![pids[0]] + rest =~= rest.insert(0, pids[0]));
        let inner = insert_pid(rest, pid);
        assert(seq![pids[0]] + inner =~= inner.insert(0, pids[0]));
        assert(pids.to_multiset() =~= rest.to_multiset().insert(pids[0]));
        assert(inner.insert(0, pids[0]).to_multiset() =~= inner.to_multiset().insert(pids[0]));
        assert forall|i: int| 0 <= i < inner.len() implies pids[0] <= #[trigger] inner[i] by {
            assert(inner.to_multiset().count(inner[i]) > 0);
            assert(inner.to_multiset() == rest.to_multiset().insert(pid));
            if inner[i] != pid {
                assert(rest.to_multiset().count(inner[i]) > 0);
                assert(rest.contains(inner[i]));
                let k = choose|k: int| 0 <= k < rest.len() && rest[k] == inner[i];
                assert(pids[k + 1] == inner[i]);
            }
        }
    }
}

/// Sorting keeps every pid, and puts them in ascending order.
pub proof fn sorted_pids_are_the_same_pids(pids: Seq<u32>)
    ensures
        sorted_pids(pids).to_multiset() == pids.to_multiset(),
        forall|i: int, j: int|
            0 <= i <= j < sorted_pids(pids).len() ==> sorted_pids(pids)[i] <= sorted_pids(pids)[j],
    decreases pids.len(),
{
    broadcast use vstd::seq_lib::group_to_multiset_ensures;

    if pids.len() > 0 {
        sorted_pids_are_the_same_pids(pids.drop_last());
        lemma_insert_pid(sorted_pids(pids.drop_last()), pids.last());
        assert(pids =~= pids.drop_last().push(pids.last()));
    } else {
        assert(pids =~= Seq::<u32>::empty());
    }
}

fn inserted_pid(pids: &Vec<u32>, pid: u32) -> (out: Vec<u32>)
    ensures
        out@ == insert_pid(pids@, pid),
{
    let mut out: Vec<u32> = Vec::new();
    let mut i: usize = 0;
    assert(pids@.subrange(0, pids@.len() as int) =~= pids@);
    assert(out@ + insert_pid(pids@, pid) =~= insert_pid(pids@, pid));
    while i < pids.len() && !(pid < pids[i])
        invariant
            i <= pids@.len(),
            out@ + insert_pid(pids@.subrange(i as int, pids@.len() as int), pid) == insert_pid(
                pids@,
                pid,
            ),
        decreases pids.len() - i,
    {
        let ghost rest = pids@.subrange(i as int, pids@.len() as int);
        let ghost before = out@;
        out.push(pids[i]);
        proof {
            assert(rest[0] == pids@[i as int]);
            assert(rest.subrange(1, rest.len() as int) =~= pids@.subrange(
                i + 1,
                pids@.len() as int,
            ));
            let tail = insert_pid(pids@.subrange(i + 1, pids@.len() as int), pid);
            assert(before + (seq![rest[0]] + tail) =~= before.push(rest[0]) + tail);
        }
        i = i + 1;
    }
    let ghost rest = pids@.subrange(i as int, pids@.len() as int);
    proof {
        if i < pids@.len() {
            assert(rest[0] == pids@[i as int]);
        }
    }
    let ghost head = out@;
    out.push(pid);
    let ghost start = i;
    assert(out@ + pids@.subrange(start as int, i as int) =~= out@);
    let ghost with_pid = out@;
    while i < pids.len()
        invariant
            start <= i <= pids@.len(),
            out@ == with_pid + pids@.subrange(start as int, i as int),
        decreases pids.len() - i,
    {
        out.push(pids[i]);
        i = i + 1;
        assert(with_pid + pids@.subrange(start as int, i as int) =~= (with_pid + pids@.subrange(
            start as int,
            i - 1,
        )).push(pids@[i - 1]));
    }
    assert(head + (seq![pid] + rest) =~= with_pid + rest);
    out
}

fn ascending(pids: &[u32]) -> (out: Vec<u32>)
    ensures
        out@ == sorted_pids(pids@),
{
    let mut out: Vec<u32> = Vec::new();
    let mut i: usize = 0;
    assert(pids@.take(0) =~= Seq::<u32>::empty());
    while i < pids.len()
        invariant
            i <= pids@.len(),
            out@ == sorted_pids(pids@.take(i as int)),
        decreases pids.len() - i,
    {
        proof {
            let next = pids@.take(i + 1);
            assert(next.drop_last() =~= pids@.take(i as int));
            assert(next.last() == pids@[i as int]);
        }
        out = inserted_pid(&out, pids[i]);
        i = i + 1;
    }
    assert(pids@.take(i as int) =~= pids@);
    out
}

/// Pids in words, each followed by `suffix`, with commas between.
pub open spec fn pid_listing(pids: Seq<u32>, suffix: Seq<char>) -> Seq<char>
    decreases pids.len(),
{
    if pids.len() == 0 {
        Seq::empty()
    } else if pids.len() == 1 {
        text::decimal(pids[0] as nat) + suffix
    } else {
        pid_listing(pids.drop_last(), suffix) + ", "@ + text::decimal(pids.last() as nat) + suffix
    }
}

/// Two listings with a comma between, where neither is empty.
pub open spec fn joined_listings(first: Seq<char>, second: Seq<char>) -> Seq<char> {
    if first.len() == 0 {
        second
    } else if second.len() == 0 {
        first
    } else {
        first + ", "@ + second
    }
}

/// The refusal of a command that could mean any of several clients.
pub open spec fn ambiguous_client(
    command_name: Seq<char>,
    attach_pids: Seq<u32>,
    control_pids: Seq<u32>,
) -> ErrorModel {
    ErrorModel::Server(
        command_name + ": "@ + text::decimal(attach_pids.len() + control_pids.len())
            + " clients attached ("@ + joined_listings(
            pid_listing(sorted_pids(attach_pids), Seq::empty()),
            pid_listing(sorted_pids(control_pids), " (control)"@),
        ) + "); pick one with `-t <client>` or address a whole session with `-s <session>`"@,
    )
}

proof fn lemma_sorted_len(pids: Seq<u32>)
    ensures
        sorted_pids(pids).len() == pids.len(),
    decreases pids.len(),
{
    if pids.len() > 0 {
        lemma_sorted_len(pids.drop_last());
        lemma_insert_len(sorted_pids(pids.drop_last()), pids.last());
    }
}

proof fn lemma_insert_len(pids: Seq<u32>, pid: u32)
    ensures
        insert_pid(pids, pid).len() == pids.len() + 1,
    decreases pids.len(),
{
    if pids.len() > 0 && !(pid < pids[0]) {
        lemma_insert_len(pids.subrange(1, pids.len() as int), pid);
    }
}

proof fn lemma_listing_is_not_empty(pids: Seq<u32>, suffix: Seq<char>)
    ensures
        pids.len() == 0 <==> pid_listing(pids, suffix).len() == 0,
{
    if pids.len() > 0 {
        lemma_decimal_is_not_empty(pids.last() as nat);
    }
}

proof fn lemma_decimal_is_not_empty(n: nat)
    ensures
        text::decimal(n).len() > 0,
    decreases n,
{
    if n >= 10 {
        lemma_decimal_is_not_empty(n / 10);
    }
}

fn listing(pids: &Vec<u32>, suffix: &str) -> (text: String)
    ensures
        text@ == pid_listing(pids@, suffix@),
{
    let mut text = String::new();
    let mut i: usize = 0;
    assert(pids@.take(0) =~= Seq::<u32>::empty());
    while i < pids.len()
        invariant
            i <= pids@.len(),
            text@ == pid_listing(pids@.take(i as int), suffix@),
        decreases pids.len() - i,
    {
        let ghost before = text@;
        if i > 0 {
            text.append(", ");
        }
        text::push_decimal(&mut text, pids[i] as u64);
        text.append(suffix);
        proof {
            let next = pids@.take(i + 1);
            assert(next.drop_last() =~= pids@.take(i as int));
            assert(next.last() == pids@[i as int]);
            if i == 0 {
                assert(text@ =~= text::decimal(pids@[0] as nat) + suffix@);
                assert(next[0] == pids@[0]);
            }
        }
        i = i + 1;
    }
    assert(pids@.take(i as int) =~= pids@);
    text
}

/// The refusal of a command that could mean any of several clients. The pids
/// are listed in ascending order, attached clients first.
pub fn ambiguous_attached_client_listing(
    command_name: &str,
    attach_pids: &[u32],
    control_pids: &[u32],
) -> (error: RmuxError)
    requires
        attach_pids@.len() + control_pids@.len() <= usize::MAX,
    ensures
        error@ == ambiguous_client(command_name@, attach_pids@, control_pids@),
{
    let sorted_attach = ascending(attach_pids);
    let sorted_control = ascending(control_pids);
    let attach = listing(&sorted_attach, "");
    let control = listing(&sorted_control, " (control)");
    proof {
        reveal_strlit("");
        assert(""@ =~= Seq::<char>::empty());
        lemma_sorted_len(attach_pids@);
        lemma_sorted_len(control_pids@);
        lemma_listing_is_not_empty(sorted_attach@, ""@);
        lemma_listing_is_not_empty(sorted_control@, " (control)"@);
    }
    let mut message = command_name.to_owned();
    message.append(": ");
    text::push_decimal(&mut message, (sorted_attach.len() + sorted_control.len()) as u64);
    message.append(" clients attached (");
    let ghost before = message@;
    message.append(attach.as_str());
    if sorted_attach.len() > 0 && sorted_control.len() > 0 {
        message.append(", ");
    }
    message.append(control.as_str());
    assert(message@ =~= before + joined_listings(attach@, control@));
    message.append(
        "); pick one with `-t <client>` or address a whole session with `-s <session>`",
    );
    RmuxError::Server(message)
}

/// What a setting is about.
#[derive(Debug, PartialEq, Eq)]
pub enum ScopeSelector {
    Global,
    Session(String),
    Window(WindowTarget),
    Pane(PaneTarget),
}

/// What an option is about.
#[derive(Debug, PartialEq, Eq)]
pub enum OptionScopeSelector {
    ServerGlobal,
    SessionGlobal,
    WindowGlobal,
    Session(String),
    Window(WindowTarget),
    Pane(PaneTarget),
}

/// Why a session is refused.
pub open spec fn session_refusal(store: SessionStore, name: Seq<char>) -> Option<ErrorModel> {
    match store.session_spec(name) {
        Some(_) => None,
        None => Some(ErrorModel::SessionNotFound(name)),
    }
}

/// Why a window is refused.
pub open spec fn window_refusal(store: SessionStore, place: sessions::WindowPlace) -> Option<
    ErrorModel,
> {
    match store.session_spec(place.0) {
        Some(session) => match session.window_spec(place.1) {
            Some(_) => None,
            None => Some(
                ErrorModel::InvalidTarget {
                    value: sessions::window_place_text(place),
                    reason: "window index does not exist in session"@,
                },
            ),
        },
        None => Some(ErrorModel::SessionNotFound(place.0)),
    }
}

/// Why a pane is refused.
pub open spec fn pane_refusal(store: SessionStore, place: sessions::PanePlace) -> Option<
    ErrorModel,
> {
    match store.session_spec(place.0) {
        Some(session) => match session.window_spec(place.1) {
            Some(window) => match sessions::pane_with_index(window.panes@, place.2) {
                Some(_) => None,
                None => Some(
                    ErrorModel::InvalidTarget {
                        value: sessions::pane_place_text(place),
                        reason: "pane index does not exist in session"@,
                    },
                ),
            },
            None => Some(
                ErrorModel::InvalidTarget {
                    value: sessions::window_place_text((place.0, place.1)),
                    reason: "window index does not exist in session"@,
                },
            ),
        },
        None => Some(ErrorModel::SessionNotFound(place.0)),
    }
}

/// Why the scope of a setting is refused.
pub open spec fn scope_refusal(store: SessionStore, scope: ScopeSelector) -> Option<ErrorModel> {
    match scope {
        ScopeSelector::Global => None,
        ScopeSelector::Session(name) => session_refusal(store, name@),
        ScopeSelector::Window(target) => window_refusal(store, target@),
        ScopeSelector::Pane(target) => pane_refusal(store, target@),
    }
}

/// A result as a refusal.
pub open spec fn refusal_of<T>(result: Result<T, RmuxError>) -> Option<ErrorModel> {
    match result {
        Ok(_) => None,
        Err(error) => Some(error@),
    }
}

fn ensure_session(store: &SessionStore, name: &str) -> (result: Result<(), RmuxError>)
    ensures
        refusal_of(result) == session_refusal(*store, name@),
{
    if store.contains_session(name) {
        Ok(())
    } else {
        Err(RmuxError::SessionNotFound(name.to_owned()))
    }
}

fn ensure_window(store: &SessionStore, target: &WindowTarget) -> (result: Result<(), RmuxError>)
    ensures
        refusal_of(result) == window_refusal(*store, target@),
{
    match store.session(target.session_name.as_str()) {
        None => Err(RmuxError::SessionNotFound(target.session_name.clone())),
        Some(session) => {
            if session.window_at(target.window_index).is_some() {
                Ok(())
            } else {
                let value = target.to_text();
                Err(
                    error::invalid_target(
                        value.as_str(),
                        "window index does not exist in session",
                    ),
                )
            }
        },
    }
}

fn ensure_pane(store: &SessionStore, target: &PaneTarget) -> (result: Result<(), RmuxError>)
    ensures
        refusal_of(result) == pane_refusal(*store, target@),
{
    match store.session(target.session_name.as_str()) {
        None => Err(RmuxError::SessionNotFound(target.session_name.clone())),
        Some(session) => match session.window_at(target.window_index) {
            None => {
                let value = sessions::window_text(
                    target.session_name.as_str(),
                    target.window_index,
                );
                Err(
                    error::invalid_target(
                        value.as_str(),
                        "window index does not exist in session",
                    ),
                )
            },
            Some(window) => {
                if window.pane(target.pane_index).is_some() {
                    Ok(())
                } else {
                    let value = target.to_text();
                    Err(
                        error::invalid_target(
                            value.as_str(),
                            "pane index does not exist in session",
                        ),
                    )
                }
            },
        },
    }
}

/// Refuses a scope whose place does not exist.
pub fn ensure_scope_session_exists(store: &SessionStore, scope: &ScopeSelector) -> (result: Result<
    (),
    RmuxError,
>)
    ensures
        refusal_of(result) == scope_refusal(*store, *scope),
{
    match scope {
        ScopeSelector::Global => Ok(()),
        ScopeSelector::Session(name) => ensure_session(store, name.as_str()),
        ScopeSelector::Window(target) => ensure_window(store, target),
        ScopeSelector::Pane(target) => ensure_pane(store, target),
    }
}

/// Refuses an option scope whose place does not exist.
pub fn ensure_option_scope_exists(store: &SessionStore, scope: &OptionScopeSelector) -> (result:
    Result<(), RmuxError>)
    ensures
        refusal_of(result) == match scope {
            OptionScopeSelector::ServerGlobal => None,
            OptionScopeSelector::SessionGlobal => None,
            OptionScopeSelector::WindowGlobal => None,
            OptionScopeSelector::Session(name) => session_refusal(*store, name@),
            OptionScopeSelector::Window(target) => window_refusal(*store, target@),
            OptionScopeSelector::Pane(target) => pane_refusal(*store, target@),
        },
{
    match scope {
        OptionScopeSelector::ServerGlobal => Ok(()),
        OptionScopeSelector::SessionGlobal => Ok(()),
        OptionScopeSelector::WindowGlobal => Ok(()),
        OptionScopeSelector::Session(name) => ensure_session(store, name.as_str()),
        OptionScopeSelector::Window(target) => ensure_window(store, target),
        OptionScopeSelector::Pane(target) => ensure_pane(store, target),
    }
}

/// Refuses a pane operation in a session of one fixed pane. `checked` is what
/// the options say of the operation; a session that does not exist is left to
/// the checks that follow.
pub fn reject_pane_op_in_passthrough(
    store: &SessionStore,
    session_name: &str,
    checked: Result<(), RmuxError>,
) -> (result: Result<(), RmuxError>)
    ensures
        result == if store.session_spec(session_name@) is Some {
            checked
        } else {
            Ok(())
        },
{
    if !store.contains_session(session_name) {
        return Ok(());
    }
    checked
}

/// A command that needs an attached client says so by name.
pub proof fn a_missing_client_is_refused_by_command(command_name: &str, error: RmuxError)
    requires
        call_ensures(attached_client_required, (command_name,), error),
    ensures
        error@ == ErrorModel::Server(command_name@ + " requires an attached client"@),
{
}

/// A session is refused exactly where no session has the name; a window where its
/// session is missing, or has none of the index; a pane where its window is missing, or
/// has none of the index. Each refusal names what is missing.
pub proof fn what_does_not_exist_is_refused_by_name(
    store: SessionStore,
    name: Seq<char>,
    window: u32,
    pane: u32,
)
    ensures
        store.session_spec(name) is None ==> {
            &&& session_refusal(store, name) == Some(ErrorModel::SessionNotFound(name))
            &&& window_refusal(store, (name, window)) == Some(ErrorModel::SessionNotFound(name))
            &&& pane_refusal(store, (name, window, pane)) == Some(ErrorModel::SessionNotFound(name))
        },
        store.session_spec(name) matches Some(session) ==> {
            &&& session_refusal(store, name) is None
            &&& session.window_spec(window) is None ==> {
                let refused = Some(
                    ErrorModel::InvalidTarget {
                        value: name + ":"@ + text::decimal(window as nat),
                        reason: "window index does not exist in session"@,
                    },
                );
                window_refusal(store, (name, window)) == refused && pane_refusal(
                    store,
                    (name, window, pane),
                ) == refused
            }
            &&& session.window_spec(window) matches Some(found) ==> {
                &&& window_refusal(store, (name, window)) is None
                &&& pane_refusal(store, (name, window, pane)) == match sessions::pane_with_index(
                    found.panes@,
                    pane,
                ) {
                    Some(_) => None,
                    None => Some(
                        ErrorModel::InvalidTarget {
                            value: name + ":"@ + text::decimal(window as nat) + "."@ + text::decimal(
                                pane as nat,
                            ),
                            reason: "pane index does not exist in session"@,
                        },
                    ),
                }
            }
        },
{
}

/// A scope is checked as what it is: a global one always stands, the others as their
/// session, window or pane does. An option's scope is checked alike.
pub proof fn a_scope_is_checked_as_what_it_is(
    store: SessionStore,
    name: String,
    window: WindowTarget,
    pane: PaneTarget,
)
    ensures
        scope_refusal(store, ScopeSelector::Global) is None,
        scope_refusal(store, ScopeSelector::Session(name)) == session_refusal(store, name@),
        scope_refusal(store, ScopeSelector::Window(window)) == window_refusal(
            store,
            (window.session_name@, window.window_index),
        ),
        scope_refusal(store, ScopeSelector::Pane(pane)) == pane_refusal(
            store,
            (pane.session_name@, pane.window_index, pane.pane_index),
        ),
{
}

/// The refusal of a command that could mean several clients lists them all, attached
/// ones first and control ones marked, with commas between.
pub proof fn an_ambiguous_command_lists_its_clients(
    command: Seq<char>,
    first: u32,
    second: u32,
    control: u32,
)
    requires
        first <= second,
    ensures
        ambiguous_client(command, seq![second, first], seq![control]) == ErrorModel::Server(
            command + ": "@ + text::decimal(3) + " clients attached ("@ + (text::decimal(
                first as nat,
            ) + ", "@ + text::decimal(second as nat) + ", "@ + (text::decimal(control as nat)
                + " (control)"@))
                + "); pick one with `-t <client>` or address a whole session with `-s <session>`"@,
        ),
{
    let none = Seq::<u32>::empty();
    let two = seq![second, first];
    assert(two.drop_last() =~= seq![second]);
    assert(seq![second].drop_last() =~= none);
    assert(sorted_pids(none) =~= none);
    assert(insert_pid(none, second) =~= seq![second]);
    assert(sorted_pids(seq![second]) =~= seq![second]);
    assert(seq![second].subrange(1, 1) =~= none);
    assert(insert_pid(none, first) =~= seq![first]);
    assert(insert_pid(seq![second], first) =~= seq![first, second]);
    assert(sorted_pids(two) =~= seq![first, second]);
    assert(seq![control].drop_last() =~= none);
    assert(insert_pid(none, control) =~= seq![control]);
    assert(sorted_pids(seq![control]) =~= seq![control]);
    let ordered = seq![first, second];
    assert(ordered.drop_last() =~= seq![first]);
    reveal_strlit(", ");
    reveal_strlit(" (control)");
    let left = pid_listing(ordered, Seq::empty());
    assert(pid_listing(seq![first], Seq::empty()) =~= text::decimal(first as nat));
    assert(left =~= text::decimal(first as nat) + ", "@ + text::decimal(second as nat));
    let right = pid_listing(seq![control], " (control)"@);
    assert(right == text::decimal(control as nat) + " (control)"@);
    assert(left.len() > 0 && right.len() > 0);
}

} // verus!
