//! The `refresh-client` command.
use crate::control_clients;
use crate::control_clients::{ActiveControlState, ControlClientIdentity, ManagedClient};
use crate::error;
use crate::error::{ErrorModel, RmuxError};
use crate::scope_support;
use crate::scope_support::attached_client_required;
use crate::text;
use vstd::prelude::*;

verus! {

/// A `refresh-client` command.
#[derive(Debug, PartialEq, Eq)]
pub struct RefreshClientRequest {
    pub target_client: Option<String>,
    pub adjustment: Option<u32>,
    pub clear_pan: bool,
    pub pan_left: bool,
    pub pan_right: bool,
    pub pan_up: bool,
    pub pan_down: bool,
    pub status_only: bool,
    pub clipboard_query: bool,
    pub flags: Option<String>,
    pub flags_alias: Option<String>,
    pub subscriptions: Vec<String>,
    pub subscriptions_format: Vec<String>,
    pub control_size: Option<String>,
    pub colour_report: Option<String>,
}

/// The size of a terminal.
#[derive(Debug, Clone, Copy, PartialEq, Eq, Structural)]
pub struct TerminalSize {
    pub cols: u16,
    pub rows: u16,
}

/// The flags of an attached client: whether it may only look, and the rest.
#[derive(Debug, Clone, Copy, PartialEq, Eq, Structural)]
pub struct ClientFlags {
    pub read_only: bool,
    pub others: u64,
}

/// An attached client as far as `refresh-client` changes it.
#[derive(Debug, PartialEq, Eq)]
pub struct RefreshableClient {
    pub id: u64,
    pub closing: bool,
    pub can_write: bool,
    pub flags: ClientFlags,
    /// The part of the window that is shown, where the client is panned.
    pub pan_window: Option<u32>,
    pub pan_ox: u32,
    pub pan_oy: u32,
    pub session_name: String,
}

/// 1 for yes, 0 for no.
pub open spec fn one_if(yes: bool) -> nat {
    if yes {
        1
    } else {
        0
    }
}

/// How many pan options a request has.
pub open spec fn pan_actions(request: RefreshClientRequest) -> nat {
    one_if(request.clear_pan) + one_if(request.pan_left) + one_if(request.pan_right) + one_if(
        request.pan_up,
    ) + one_if(request.pan_down)
}

/// Why the pan options of a request are refused.
pub open spec fn pan_refusal(request: RefreshClientRequest) -> Option<ErrorModel> {
    if pan_actions(request) > 1 {
        Some(ErrorModel::Server("refresh-client accepts only one of -c, -L, -R, -U, or -D"@))
    } else if request.adjustment is Some && pan_actions(request) == 0 {
        Some(ErrorModel::Server("refresh-client adjustment requires a pan direction"@))
    } else {
        None
    }
}

/// Refuses more than one pan option, and an adjustment without one.
pub fn validate_refresh_pan_request(request: &RefreshClientRequest) -> (result: Result<
    (),
    RmuxError,
>)
    ensures
        scope_support::refusal_of(result) == pan_refusal(*request),
{
    let mut actions: usize = 0;
    if request.clear_pan {
        actions = actions + 1;
    }
    if request.pan_left {
        actions = actions + 1;
    }
    if request.pan_right {
        actions = actions + 1;
    }
    if request.pan_up {
        actions = actions + 1;
    }
    if request.pan_down {
        actions = actions + 1;
    }
    if actions > 1 {
        return Err(
            error::server_error("refresh-client accepts only one of -c, -L, -R, -U, or -D"),
        );
    }
    if request.adjustment.is_some() && actions == 0 {
        return Err(error::server_error("refresh-client adjustment requires a pan direction"));
    }
    Ok(())
}

/// `options` with `option` after a slash.
pub open spec fn with_option(options: Seq<char>, option: Seq<char>) -> Seq<char> {
    if options.len() == 0 {
        option
    } else {
        options + "/"@ + option
    }
}

/// The options of a request that are not supported, between slashes.
pub open spec fn unsupported_options(request: RefreshClientRequest) -> Seq<char> {
    let first = if request.subscriptions@.len() > 0 {
        "-A"@
    } else {
        Seq::empty()
    };
    let second = if request.subscriptions_format@.len() > 0 {
        with_option(first, "-B"@)
    } else {
        first
    };
    if request.colour_report is Some {
        with_option(second, "-r"@)
    } else {
        second
    }
}

/// Why a request is refused for options that are not supported.
pub open spec fn support_refusal(request: RefreshClientRequest) -> Option<ErrorModel> {
    if request.subscriptions@.len() == 0 && request.subscriptions_format@.len() == 0
        && request.colour_report is None {
        None
    } else {
        Some(
            ErrorModel::Server(
                "refresh-client "@ + unsupported_options(request) + " is not supported"@,
            ),
        )
    }
}

fn push_option(options: &mut String, option: &str)
    ensures
        final(options)@ == with_option(old(options)@, option@),
{
    if options.as_str().unicode_len() > 0 {
        options.append("/");
        options.append(option);
    } else {
        options.append(option);
        assert(options@ =~= option@);
    }
}

/// Refuses options that are not supported, and names them.
pub fn validate_refresh_supported_request(request: &RefreshClientRequest) -> (result: Result<
    (),
    RmuxError,
>)
    ensures
        scope_support::refusal_of(result) == support_refusal(*request),
{
    if request.subscriptions.len() == 0 && request.subscriptions_format.len() == 0
        && request.colour_report.is_none() {
        return Ok(());
    }
    let mut options = String::new();
    if request.subscriptions.len() > 0 {
        options.append("-A");
        assert(options@ =~= "-A"@);
    }
    if request.subscriptions_format.len() > 0 {
        push_option(&mut options, "-B");
    }
    if request.colour_report.is_some() {
        push_option(&mut options, "-r");
    }
    Err(
        RmuxError::Server(
            text::concat3("refresh-client ", options.as_str(), " is not supported"),
        ),
    )
}

/// `text` as columns and rows, `<cols>x<rows>`, both above zero.
pub open spec fn control_size(text: Seq<char>) -> Option<TerminalSize> {
    match text::char_from(text, 'x', 0) {
        None => None,
        Some(at) => {
            let cols = text::number(text.subrange(0, at), u16::MAX as nat);
            let rows = text::number(text.subrange(at + 1, text.len() as int), u16::MAX as nat);
            match (cols, rows) {
                (Some(cols), Some(rows)) => if cols > 0 && rows > 0 {
                    Some(TerminalSize { cols: cols as u16, rows: rows as u16 })
                } else {
                    None
                },
                _ => None,
            }
        },
    }
}

/// `value` as columns and rows.
pub fn parse_control_size(value: &str) -> (size: Option<TerminalSize>)
    ensures
        size == control_size(value@),
{
    let len: usize = value.unicode_len();
    let mut at: usize = 0;
    while at < len && value.get_char(at) != 'x'
        invariant
            len == value@.len(),
            at <= len,
            text::char_from(value@, 'x', 0) == text::char_from(value@, 'x', at as int),
        decreases len - at,
    {
        at = at + 1;
    }
    if at >= len {
        return None;
    }
    let cols = text::parse_number(value.substring_char(0, at), u16::MAX as u64);
    let rows = text::parse_number(value.substring_char(at + 1, len), u16::MAX as u64);
    match (cols, rows) {
        (Some(cols), Some(rows)) => {
            if cols > 0 && rows > 0 {
                Some(TerminalSize { cols: cols as u16, rows: rows as u16 })
            } else {
                None
            }
        },
        _ => None,
    }
}

/// The parts of `text` from `from` on that commas part, without the empty ones.
pub open spec fn tokens_from(text: Seq<char>, from: int) -> Seq<Seq<char>>
    decreases text.len() + 1 - from,
{
    if from < 0 || from > text.len() {
        Seq::empty()
    } else {
        let end = match text::char_from(text, ',', from) {
            Some(at) => at,
            None => text.len() as int,
        };
        let rest = if from <= end <= text.len() {
            tokens_from(text, end + 1)
        } else {
            Seq::empty()
        };
        if from < end {
            seq![text.subrange(from, end)] + rest
        } else {
            rest
        }
    }
}

/// The names in a list of client flags.
pub fn flag_tokens(raw: &str) -> (tokens: Vec<String>)
    ensures
        text::views(tokens@) == tokens_from(raw@, 0),
{
    let len: usize = raw.unicode_len();
    let mut tokens: Vec<String> = Vec::new();
    let mut start: usize = 0;
    let mut at: usize = 0;
    assert(text::views(tokens@) + tokens_from(raw@, 0) =~= tokens_from(raw@, 0));
    while at < len
        invariant
            len == raw@.len(),
            start <= at <= len,
            forall|j: int| start <= j < at ==> #[trigger] raw@[j] != ',',
            text::views(tokens@) + tokens_from(raw@, start as int) == tokens_from(raw@, 0),
        decreases len - at,
    {
        if raw.get_char(at) == ',' {
            proof {
                text::lemma_char_from(raw@, ',', start as int);
            }
            let ghost before = text::views(tokens@);
            if start < at {
                let token = raw.substring_char(start, at).to_owned();
                tokens.push(token);
                proof {
                    assert(text::views(tokens@) =~= before + seq![token@]);
                    assert(before + (seq![token@] + tokens_from(raw@, at + 1)) =~= before + seq![
                        token@,
                    ] + tokens_from(raw@, at + 1));
                }
            }
            start = at + 1;
        }
        at = at + 1;
    }
    proof {
        text::lemma_char_from(raw@, ',', start as int);
        assert(tokens_from(raw@, len + 1) =~= Seq::<Seq<char>>::empty());
    }
    let ghost before = text::views(tokens@);
    if start < len {
        let token = raw.substring_char(start, len).to_owned();
        tokens.push(token);
        proof {
            assert(text::views(tokens@) =~= before + seq![token@]);
            assert(seq![token@] + Seq::<Seq<char>>::empty() =~= seq![token@]);
        }
    } else {
        assert(before + Seq::<Seq<char>>::empty() =~= before);
    }
    tokens
}

/// The flags that a request names, if it does.
pub open spec fn raw_flags(request: RefreshClientRequest) -> Option<Seq<char>> {
    match (request.flags, request.flags_alias) {
        (Some(flags), _) => Some(flags@),
        (None, Some(flags)) => Some(flags@),
        (None, None) => None,
    }
}

/// The names of the flags that a request asks for.
pub fn requested_flags(request: &RefreshClientRequest) -> (names: Option<Vec<String>>)
    ensures
        match (names, raw_flags(*request)) {
            (Some(names), Some(raw)) => text::views(names@) == tokens_from(raw, 0),
            (None, None) => true,
            _ => false,
        },
{
    match (&request.flags, &request.flags_alias) {
        (Some(flags), _) => Some(flag_tokens(flags.as_str())),
        (None, Some(flags)) => Some(flag_tokens(flags.as_str())),
        (None, None) => None,
    }
}

/// `a + b`, or the largest where that is too large.
pub open spec fn saturating_sum(a: u32, b: u32) -> u32 {
    if a + b > u32::MAX {
        u32::MAX
    } else {
        (a + b) as u32
    }
}

/// `a - b`, or zero where that is below it.
pub open spec fn saturating_difference(a: u32, b: u32) -> u32 {
    if a < b {
        0
    } else {
        (a - b) as u32
    }
}

/// A client after a request moved what it shows.
pub open spec fn panned(client: RefreshableClient, request: RefreshClientRequest) ->
    RefreshableClient {
    let by = match request.adjustment {
        Some(adjustment) => adjustment,
        None => 1u32,
    };
    if request.clear_pan {
        RefreshableClient { pan_window: None, pan_ox: 0, pan_oy: 0, ..client }
    } else if request.pan_left || request.pan_right || request.pan_up || request.pan_down {
        let left = if request.pan_left {
            saturating_difference(client.pan_ox, by)
        } else {
            client.pan_ox
        };
        let up = if request.pan_up {
            saturating_difference(client.pan_oy, by)
        } else {
            client.pan_oy
        };
        RefreshableClient {
            pan_window: Some(
                match client.pan_window {
                    Some(window) => window,
                    None => 0,
                },
            ),
            pan_ox: if request.pan_right {
                saturating_sum(left, by)
            } else {
                left
            },
            pan_oy: if request.pan_down {
                saturating_sum(up, by)
            } else {
                up
            },
            ..client
        }
    } else {
        client
    }
}

/// A client after a request changed its flags. A client that may not write stays
/// one that may only look.
pub open spec fn flagged(
    client: RefreshableClient,
    request: RefreshClientRequest,
    merged: ClientFlags,
) -> RefreshableClient {
    if raw_flags(request) is None {
        client
    } else if client.can_write {
        RefreshableClient { flags: merged, ..client }
    } else {
        RefreshableClient { flags: ClientFlags { read_only: true, ..merged }, ..client }
    }
}

/// What is drawn and sent for a request, in order: the status line, the clipboard
/// query, all of the client.
#[derive(Debug, PartialEq, Eq)]
pub struct AttachedRefresh {
    pub session_name: String,
    pub status: bool,
    pub clipboard_query: bool,
    pub full: bool,
}

fn pan(client: &mut RefreshableClient, request: &RefreshClientRequest)
    ensures
        *final(client) == panned(*old(client), *request),
{
    let adjustment: u32 = match request.adjustment {
        Some(adjustment) => adjustment,
        None => 1,
    };
    if request.clear_pan {
        client.pan_window = None;
        client.pan_ox = 0;
        client.pan_oy = 0;
    } else if request.pan_left || request.pan_right || request.pan_up || request.pan_down {
        if client.pan_window.is_none() {
            client.pan_window = Some(0);
        }
        if request.pan_left {
            client.pan_ox = client.pan_ox.saturating_sub(adjustment);
        }
        if request.pan_right {
            client.pan_ox = client.pan_ox.saturating_add(adjustment);
        }
        if request.pan_up {
            client.pan_oy = client.pan_oy.saturating_sub(adjustment);
        }
        if request.pan_down {
            client.pan_oy = client.pan_oy.saturating_add(adjustment);
        }
    }
}

/// Why a request for an attached client is refused: the client is gone, or was
/// never there, or a flag is not known.
pub open spec fn attached_refusal(
    client: Option<RefreshableClient>,
    expected_id: u64,
    request: RefreshClientRequest,
    merged: Result<ClientFlags, RmuxError>,
) -> Option<ErrorModel> {
    match client {
        Some(client) if client.id == expected_id && !client.closing => match merged {
            Err(error) if raw_flags(request) is Some => Some(error@),
            _ => None,
        },
        _ => Some(scope_support::client_required("refresh-client"@)),
    }
}

/// Changes an attached client as a request asks, and says what is drawn and sent
/// then. `merged` is what setting the requested flags, one after another, makes
/// of the client's flags; it stops at the first that is not known.
pub fn handle_refresh_attached_client(
    client: &mut Option<RefreshableClient>,
    expected_id: u64,
    request: &RefreshClientRequest,
    merged: Result<ClientFlags, RmuxError>,
) -> (result: Result<AttachedRefresh, RmuxError>)
    ensures
        scope_support::refusal_of(result) == attached_refusal(
            *old(client),
            expected_id,
            *request,
            merged,
        ),
        match result {
            Err(_) => *final(client) == *old(client),
            Ok(refresh) => {
                let before = old(client)->0;
                &&& *final(client) == Some(
                    panned(flagged(before, *request, merged->Ok_0), *request),
                )
                &&& refresh.session_name@ == before.session_name@
                &&& refresh.status == request.status_only
                &&& refresh.clipboard_query == request.clipboard_query
                &&& refresh.full == !request.status_only
            },
        },
{
    match client {
        None => Err(attached_client_required("refresh-client")),
        Some(active) => {
            if active.id != expected_id || active.closing {
                return Err(attached_client_required("refresh-client"));
            }
            if request.flags.is_some() || request.flags_alias.is_some() {
                match merged {
                    Err(error) => {
                        return Err(error);
                    },
                    Ok(flags) => {
                        active.flags = if active.can_write {
                            flags
                        } else {
                            ClientFlags { read_only: true, others: flags.others }
                        };
                    },
                }
            }
            pan(active, request);
            Ok(
                AttachedRefresh {
                    session_name: active.session_name.clone(),
                    status: request.status_only,
                    clipboard_query: request.clipboard_query,
                    full: !request.status_only,
                },
            )
        },
    }
}

/// The answer to a request for an attached client, from what came of the parts
/// that were drawn and sent; what was not asked for does not matter.
pub fn attached_refresh_answer(
    refresh: &AttachedRefresh,
    pid: u32,
    status: Result<(), RmuxError>,
    clipboard_query: Result<(), RmuxError>,
    full: Result<(), RmuxError>,
) -> (result: Result<String, RmuxError>)
    ensures
        if refresh.status && status is Err {
            result matches Err(error) && error@ == status->Err_0@
        } else if refresh.clipboard_query && clipboard_query is Err {
            result matches Err(error) && error@ == clipboard_query->Err_0@
        } else if refresh.full && full is Err {
            result matches Err(error) && error@ == full->Err_0@
        } else {
            result matches Ok(client) && client@ == text::decimal(pid as nat)
        },
{
    if refresh.status {
        if let Err(error) = status {
            return Err(error);
        }
    }
    if refresh.clipboard_query {
        if let Err(error) = clipboard_query {
            return Err(error);
        }
    }
    if refresh.full {
        if let Err(error) = full {
            return Err(error);
        }
    }
    Ok(text::decimal_text(pid as u64))
}

impl RefreshClientRequest {
    /// The request asks for something that only an attached client has.
    pub open spec fn attach_only(&self) -> bool {
        self.clear_pan || self.pan_left || self.pan_right || self.pan_up || self.pan_down
            || self.status_only || self.clipboard_query || self.flags is Some
            || self.flags_alias is Some
    }

    /// Whether the request asks for something that only an attached client has.
    pub fn has_attach_only_effects(&self) -> (has: bool)
        ensures
            has == self.attach_only(),
    {
        self.clear_pan || self.pan_left || self.pan_right || self.pan_up || self.pan_down
            || self.status_only || self.clipboard_query || self.flags.is_some()
            || self.flags_alias.is_some()
    }
}

/// What a request does to a control-mode client.
#[derive(Debug, PartialEq, Eq)]
pub enum ControlRefresh {
    /// The active window of the client's session gets a size.
    Resize { session_name: String, session_id: u32, size: TerminalSize },
    /// The client is told of its session again.
    Refresh,
    /// A size, for a client that has no session.
    Nothing,
}

/// The same as a value.
pub enum ControlRefreshModel {
    Resize(Seq<char>, u32, TerminalSize),
    Refresh,
    Nothing,
    Refused(ErrorModel),
}

/// A result as a value.
pub open spec fn control_refresh_model(result: Result<ControlRefresh, RmuxError>) ->
    ControlRefreshModel {
    match result {
        Ok(ControlRefresh::Resize { session_name, session_id, size }) => {
            ControlRefreshModel::Resize(session_name@, session_id, size)
        },
        Ok(ControlRefresh::Refresh) => ControlRefreshModel::Refresh,
        Ok(ControlRefresh::Nothing) => ControlRefreshModel::Nothing,
        Err(error) => ControlRefreshModel::Refused(error@),
    }
}

/// The client that an identity means, if it is still there.
pub open spec fn live_client(
    entries: Seq<control_clients::ControlEntry>,
    identity: ControlClientIdentity,
) -> Option<control_clients::ActiveControl> {
    match control_clients::entry_at(entries, identity.pid()) {
        Some(at) => if entries[at].client.id == identity.id() && !entries[at].client.closing {
            Some(entries[at].client)
        } else {
            None
        },
        None => None,
    }
}

/// What a request does to a control-mode client.
pub open spec fn control_refresh(
    entries: Seq<control_clients::ControlEntry>,
    identity: ControlClientIdentity,
    request: RefreshClientRequest,
) -> ControlRefreshModel {
    let gone = ControlRefreshModel::Refused(scope_support::client_required("refresh-client"@));
    if request.attach_only() {
        gone
    } else if request.control_size is Some && control_size(request.control_size->0@) is None {
        ControlRefreshModel::Refused(
            ErrorModel::Server(
                "invalid refresh-client size '"@ + request.control_size->0@ + "'"@,
            ),
        )
    } else {
        match live_client(entries, identity) {
            None => gone,
            Some(client) => match request.control_size {
                None => ControlRefreshModel::Refresh,
                Some(size) => match control_clients::session_identity(client) {
                    Some((name, id)) => ControlRefreshModel::Resize(
                        name,
                        id,
                        control_size(size@)->0,
                    ),
                    None => ControlRefreshModel::Nothing,
                },
            },
        }
    }
}

/// What a request does to a control-mode client.
pub fn handle_refresh_control_client(
    clients: &ActiveControlState,
    identity: ControlClientIdentity,
    request: &RefreshClientRequest,
) -> (result: Result<ControlRefresh, RmuxError>)
    ensures
        control_refresh_model(result) == control_refresh(clients.by_pid@, identity, *request),
{
    if request.has_attach_only_effects() {
        return Err(attached_client_required("refresh-client"));
    }
    let size: Option<TerminalSize> = match &request.control_size {
        Some(value) => match parse_control_size(value.as_str()) {
            Some(size) => Some(size),
            None => {
                return Err(
                    RmuxError::Server(
                        text::concat3("invalid refresh-client size '", value.as_str(), "'"),
                    ),
                );
            },
        },
        None => None,
    };
    let at: usize = match clients.find(identity.requester_pid()) {
        Some(at) => at,
        None => {
            return Err(attached_client_required("refresh-client"));
        },
    };
    let client = &clients.by_pid[at].client;
    if client.id != identity.control_id() || client.closing {
        return Err(attached_client_required("refresh-client"));
    }
    match size {
        None => Ok(ControlRefresh::Refresh),
        Some(size) => match (&client.session_name, client.session_id) {
            (Some(name), Some(id)) => Ok(
                ControlRefresh::Resize { session_name: name.clone(), session_id: id, size },
            ),
            _ => Ok(ControlRefresh::Nothing),
        },
    }
}

/// Whether a control-mode client is still there and attached to the session that
/// is about to be resized for it; refuses the request where it is not.
pub fn require_control_client_attached(
    clients: &ActiveControlState,
    identity: ControlClientIdentity,
    session_name: &str,
    session_id: u32,
) -> (result: Result<(), RmuxError>)
    ensures
        scope_support::refusal_of(result) == match live_client(clients.by_pid@, identity) {
            Some(client) if control_clients::session_identity(client) == Some(
                (session_name@, session_id),
            ) => None,
            _ => Some(scope_support::client_required("refresh-client"@)),
        },
{
    match clients.find(identity.requester_pid()) {
        Some(at) => {
            let client = &clients.by_pid[at].client;
            let same_session = match (&client.session_name, client.session_id) {
                (Some(name), Some(id)) => text::same_text(name.as_str(), session_name) && id
                    == session_id,
                _ => false,
            };
            if client.id == identity.control_id() && !client.closing && same_session {
                Ok(())
            } else {
                Err(attached_client_required("refresh-client"))
            }
        },
        None => Err(attached_client_required("refresh-client")),
    }
}

/// Why a request is refused before its client is looked for.
pub open spec fn request_refusal(request: RefreshClientRequest) -> Option<ErrorModel> {
    match pan_refusal(request) {
        Some(refusal) => Some(refusal),
        None => support_refusal(request),
    }
}

/// The client that a request is for. `client` is what looking for it gave; a request
/// that makes no sense is refused whatever that is.
pub fn handle_refresh_client(
    request: &RefreshClientRequest,
    client: Result<ManagedClient, RmuxError>,
) -> (result: Result<ManagedClient, RmuxError>)
    ensures
        match (request_refusal(*request), client) {
            (Some(refusal), _) => result matches Err(error) && error@ == refusal,
            (None, Err(refusal)) => result matches Err(error) && error@ == refusal@,
            (None, Ok(found)) => result == Ok::<ManagedClient, RmuxError>(found),
        },
{
    if let Err(error) = validate_refresh_pan_request(request) {
        return Err(error);
    }
    if let Err(error) = validate_refresh_supported_request(request) {
        return Err(error);
    }
    client
}

/// A client that may not write never gets to by its flags: whatever flags it
/// asks for, it may only look.
pub proof fn flags_do_not_grant_writing(
    client: RefreshableClient,
    request: RefreshClientRequest,
    merged: ClientFlags,
)
    ensures
        !client.can_write && raw_flags(request) is Some ==> panned(
            flagged(client, request, merged),
            request,
        ).flags.read_only,
        panned(flagged(client, request, merged), request).can_write == client.can_write,
{
}

/// A move to the right and one back to the left by as much bring the offsets back,
/// unless the first ran into the largest offset.
pub proof fn panning_back_undoes_panning(
    client: RefreshableClient,
    right: RefreshClientRequest,
    left: RefreshClientRequest,
)
    requires
        right.pan_right && !right.clear_pan && !right.pan_left && !right.pan_up && !right.pan_down,
        left.pan_left && !left.clear_pan && !left.pan_right && !left.pan_up && !left.pan_down,
        left.adjustment == right.adjustment,
        client.pan_ox + match right.adjustment {
            Some(by) => by as int,
            None => 1,
        } <= u32::MAX,
    ensures
        panned(panned(client, right), left).pan_ox == client.pan_ox,
        panned(panned(client, right), left).pan_oy == client.pan_oy,
{
}

/// The request moves what a client shows in one direction, `(left, right, up, down)`,
/// by `by`, and asks for no other move.
pub open spec fn moves_by(
    request: RefreshClientRequest,
    direction: (bool, bool, bool, bool),
    by: int,
) -> bool {
    &&& !request.clear_pan
    &&& (request.pan_left, request.pan_right, request.pan_up, request.pan_down) == direction
    &&& match request.adjustment {
        Some(adjustment) => adjustment == by,
        None => by == 1,
    }
}

/// A move goes where its direction says, by as much as it says, which is one where it
/// says nothing: right and down raise their offset up to the largest, left and up lower
/// theirs down to zero. The other offset stays, and so does all else of the client but
/// that it is now panned.
pub proof fn a_move_goes_where_it_says(
    client: RefreshableClient,
    request: RefreshClientRequest,
    by: int,
)
    ensures
        ({
            let after = panned(client, request);
            &&& moves_by(request, (false, false, false, true), by) ==> {
                &&& after.pan_ox == client.pan_ox
                &&& client.pan_oy + by <= u32::MAX ==> after.pan_oy == client.pan_oy + by
                &&& client.pan_oy + by > u32::MAX ==> after.pan_oy == u32::MAX
                &&& after.pan_window is Some
            }
            &&& moves_by(request, (false, false, true, false), by) ==> {
                &&& after.pan_ox == client.pan_ox
                &&& client.pan_oy >= by ==> after.pan_oy == client.pan_oy - by
                &&& client.pan_oy < by ==> after.pan_oy == 0
                &&& after.pan_window is Some
            }
            &&& moves_by(request, (false, true, false, false), by) ==> {
                &&& after.pan_oy == client.pan_oy
                &&& client.pan_ox + by <= u32::MAX ==> after.pan_ox == client.pan_ox + by
                &&& client.pan_ox + by > u32::MAX ==> after.pan_ox == u32::MAX
                &&& after.pan_window is Some
            }
            &&& moves_by(request, (true, false, false, false), by) ==> {
                &&& after.pan_oy == client.pan_oy
                &&& client.pan_ox >= by ==> after.pan_ox == client.pan_ox - by
                &&& client.pan_ox < by ==> after.pan_ox == 0
                &&& after.pan_window is Some
            }
            &&& moves_by(request, (false, false, false, false), by) ==> after == client
            &&& !request.clear_pan && client.pan_window is Some ==> after.pan_window
                == client.pan_window
            &&& after.id == client.id && after.closing == client.closing && after.can_write
                == client.can_write && after.flags == client.flags && after.session_name
                == client.session_name
        }),
{
}

/// A move down and one back up by as much bring the offsets back, unless the first ran
/// into the largest offset.
pub proof fn moving_up_undoes_moving_down(
    client: RefreshableClient,
    down: RefreshClientRequest,
    up: RefreshClientRequest,
    by: int,
)
    requires
        moves_by(down, (false, false, false, true), by),
        moves_by(up, (false, false, true, false), by),
        client.pan_oy + by <= u32::MAX,
    ensures
        panned(panned(client, down), up).pan_oy == client.pan_oy,
        panned(panned(client, down), up).pan_ox == client.pan_ox,
        by > 0 ==> panned(client, down).pan_oy > client.pan_oy,
{
}

/// A move up and one back down by as much bring the offsets back, unless the first ran
/// into zero; so do a move to the left and one back to the right.
pub proof fn moving_on_undoes_moving_back(
    client: RefreshableClient,
    back: RefreshClientRequest,
    on: RefreshClientRequest,
    by: int,
)
    requires
        (moves_by(back, (false, false, true, false), by) && moves_by(
            on,
            (false, false, false, true),
            by,
        ) && client.pan_oy >= by) || (moves_by(back, (true, false, false, false), by) && moves_by(
            on,
            (false, true, false, false),
            by,
        ) && client.pan_ox >= by),
    ensures
        panned(panned(client, back), on).pan_oy == client.pan_oy,
        panned(panned(client, back), on).pan_ox == client.pan_ox,
{
}

/// Clearing takes every move back: the client shows the whole from its corner again.
pub proof fn clearing_takes_every_move_back(
    client: RefreshableClient,
    request: RefreshClientRequest,
)
    requires
        request.clear_pan,
    ensures
        ({
            let after = panned(client, request);
            after.pan_window is None && after.pan_ox == 0 && after.pan_oy == 0 && after.flags
                == client.flags && after.can_write == client.can_write
        }),
{
}

/// A client that may write gets exactly the flags that were asked for; where a request
/// names none, they stay. The flags named first by the request win over the second name
/// for them.
pub proof fn requested_flags_are_set(
    client: RefreshableClient,
    request: RefreshClientRequest,
    merged: ClientFlags,
)
    ensures
        ({
            let after = flagged(client, request, merged);
            &&& request.flags is None && request.flags_alias is None ==> after == client
            &&& request.flags is Some || request.flags_alias is Some ==> {
                &&& client.can_write ==> after.flags == merged
                &&& !client.can_write ==> after.flags.read_only && after.flags.others
                    == merged.others
            }
            &&& after.pan_ox == client.pan_ox && after.pan_oy == client.pan_oy && after.pan_window
                == client.pan_window
        }),
        request.flags matches Some(flags) ==> raw_flags(request) == Some(flags@),
        request.flags is None ==> (request.flags_alias matches Some(flags) ==> raw_flags(request)
            == Some(flags@)),
{
}

/// Any two of clearing and the four moves exclude each other, and an amount needs a
/// move to belong to; any one of them alone is taken.
pub proof fn one_move_at_a_time(request: RefreshClientRequest)
    ensures
        ({
            let two = "refresh-client accepts only one of -c, -L, -R, -U, or -D"@;
            let none = "refresh-client adjustment requires a pan direction"@;
            let asked = (
                request.clear_pan,
                request.pan_left,
                request.pan_right,
                request.pan_up,
                request.pan_down,
            );
            if asked == (false, false, false, false, false) {
                pan_refusal(request) == if request.adjustment is Some {
                    Some(ErrorModel::Server(none))
                } else {
                    None
                }
            } else if asked == (true, false, false, false, false) || asked == (
                false,
                true,
                false,
                false,
                false,
            ) || asked == (false, false, true, false, false) || asked == (
                false,
                false,
                false,
                true,
                false,
            ) || asked == (false, false, false, false, true) {
                pan_refusal(request) is None
            } else {
                pan_refusal(request) == Some(ErrorModel::Server(two))
            }
        }),
{
}

/// A request for subscriptions or a colour report is refused, and names each option
/// that is not supported, in order; another is not.
pub proof fn unsupported_requests_name_their_options(request: RefreshClientRequest)
    ensures
        ({
            let a = request.subscriptions@.len() > 0;
            let b = request.subscriptions_format@.len() > 0;
            let r = request.colour_report is Some;
            let options = if a && b && r {
                "-A"@ + "/"@ + "-B"@ + "/"@ + "-r"@
            } else if a && b {
                "-A"@ + "/"@ + "-B"@
            } else if a && r {
                "-A"@ + "/"@ + "-r"@
            } else if b && r {
                "-B"@ + "/"@ + "-r"@
            } else if a {
                "-A"@
            } else if b {
                "-B"@
            } else {
                "-r"@
            };
            support_refusal(request) == if a || b || r {
                Some(ErrorModel::Server("refresh-client "@ + options + " is not supported"@))
            } else {
                None
            }
        }),
{
    reveal_strlit("-A");
    reveal_strlit("-B");
}

/// A size is read from its columns, an `x` and its rows, in that order; neither may be
/// zero or above the largest size of a terminal.
pub proof fn a_size_is_columns_by_rows(cols: nat, rows: nat)
    ensures
        control_size(text::decimal(cols) + seq!['x'] + text::decimal(rows)) == if 0 < cols <= 65535
            && 0 < rows <= 65535 {
            Some(TerminalSize { cols: cols as u16, rows: rows as u16 })
        } else {
            None::<TerminalSize>
        },
{
    text::a_decimal_number_reads_back(cols, u16::MAX as nat);
    text::a_decimal_number_reads_back(rows, u16::MAX as nat);
    let first = text::decimal(cols);
    let second = text::decimal(rows);
    let all = first + seq!['x'] + second;
    text::lemma_char_from(all, 'x', 0);
    assert(all[first.len() as int] == 'x');
    let at = text::char_from(all, 'x', 0)->0;
    if at < first.len() {
        assert(all[at] == first[at]);
    }
    assert(at == first.len());
    assert(all.subrange(0, at) =~= first);
    assert(all.subrange(at + 1, all.len() as int) =~= second);
}

/// A text without an `x` is no size.
pub proof fn a_size_needs_its_x(text: Seq<char>)
    requires
        forall|i: int| 0 <= i < text.len() ==> #[trigger] text[i] != 'x',
    ensures
        control_size(text) is None,
{
    text::lemma_char_from(text, 'x', 0);
}

/// A list of flags comes apart at its commas, and nothing between two of them is no
/// flag.
pub proof fn flag_names_come_apart_at_commas(name: Seq<char>, rest: Seq<char>)
    requires
        forall|i: int| 0 <= i < name.len() ==> #[trigger] name[i] != ',',
    ensures
        tokens_from(name, 0) == if name.len() > 0 {
            seq![name]
        } else {
            seq![]
        },
        tokens_from(name + seq![','] + rest, 0) == tokens_from(name, 0) + tokens_from(rest, 0),
{
    let all = name + seq![','] + rest;
    let at = name.len() as int;
    text::lemma_char_from(name, ',', 0);
    text::lemma_char_from(all, ',', 0);
    assert(all[at] == ',');
    let found = text::char_from(all, ',', 0)->0;
    if found < at {
        assert(all[found] == name[found]);
    }
    assert(found == at);
    assert(all.subrange(0, at) =~= name);
    assert(name.subrange(0, at) =~= name);
    assert(tokens_from(name, at + 1) =~= Seq::<Seq<char>>::empty());
    lemma_tokens_shift(name + seq![','], rest, 0);
}

proof fn lemma_tokens_shift(before: Seq<char>, rest: Seq<char>, from: int)
    requires
        0 <= from,
    ensures
        tokens_from(before + rest, before.len() + from) == tokens_from(rest, from),
    decreases rest.len() + 1 - from,
{
    let all = before + rest;
    if from <= rest.len() {
        text::lemma_char_shift(before, rest, ',', from);
        text::lemma_char_from(rest, ',', from);
        let end = match text::char_from(rest, ',', from) {
            Some(at) => at,
            None => rest.len() as int,
        };
        assert(all.subrange(before.len() + from, before.len() + end) =~= rest.subrange(from, end));
        lemma_tokens_shift(before, rest, end + 1);
    }
}

/// An attached client is changed only where it is still the one that was meant and is
/// not closing.
pub proof fn only_the_client_that_was_meant_is_refreshed(
    client: RefreshableClient,
    expected_id: u64,
    request: RefreshClientRequest,
    merged: ClientFlags,
)
    ensures
        attached_refusal(Some(client), expected_id, request, Ok(merged)) is None == (client.id
            == expected_id && !client.closing),
        attached_refusal(None, expected_id, request, Ok(merged)) is Some,
{
}

/// A control-mode client is told of its session again where no size was asked for, has
/// its window resized where one was, and is refused everything that only an attached
/// client has.
pub proof fn a_control_client_is_resized_or_told_again(
    entries: Seq<control_clients::ControlEntry>,
    identity: ControlClientIdentity,
    request: RefreshClientRequest,
    at: int,
)
    requires
        control_clients::entry_at(entries, identity.pid()) == Some(at),
        entries[at].client.id == identity.id(),
    ensures
        ({
            let client = entries[at].client;
            let refresh = control_refresh(entries, identity, request);
            &&& client.closing ==> refresh is Refused
            &&& request.clear_pan || request.pan_left || request.pan_right || request.pan_up
                || request.pan_down || request.status_only || request.clipboard_query
                || request.flags is Some || request.flags_alias is Some ==> refresh is Refused
            &&& !client.closing && !request.attach_only() && request.control_size is None
                ==> refresh is Refresh
            &&& !client.closing && !request.attach_only() && request.control_size is Some
                && control_size(request.control_size->0@) is Some ==> match (
                client.session_name,
                client.session_id,
            ) {
                (Some(name), Some(id)) => refresh == ControlRefreshModel::Resize(
                    name@,
                    id,
                    control_size(request.control_size->0@)->0,
                ),
                _ => refresh is Nothing,
            }
        }),
        request.attach_only() == (request.clear_pan || request.pan_left || request.pan_right
            || request.pan_up || request.pan_down || request.status_only || request.clipboard_query
            || request.flags is Some || request.flags_alias is Some),
{
}

/// A request that makes no sense is refused before its client is looked for, first for
/// its moves and then for what is not supported; else its client decides.
pub proof fn a_request_is_checked_before_its_client(
    request: RefreshClientRequest,
    client: ManagedClient,
    result: Result<ManagedClient, RmuxError>,
)
    requires
        call_ensures(handle_refresh_client, (&request, Ok(client)), result),
    ensures
        request.pan_left && request.pan_right ==> (result matches Err(error) && error@
            == ErrorModel::Server("refresh-client accepts only one of -c, -L, -R, -U, or -D"@)),
        result is Ok == (pan_refusal(request) is None && support_refusal(request) is None),
        result matches Ok(found) ==> found == client,
{
}

/// What is asked for is drawn: the status line alone, or all of the client; and the
/// answer is the first failure of what was asked for, or else the client.
pub proof fn the_answer_is_the_first_failure(
    refresh: AttachedRefresh,
    pid: u32,
    failed: RmuxError,
    result: Result<String, RmuxError>,
    ignored: Result<String, RmuxError>,
)
    requires
        call_ensures(attached_refresh_answer, (&refresh, pid, Err(failed), Ok(()), Ok(())), result),
        call_ensures(attached_refresh_answer, (&refresh, pid, Ok(()), Ok(()), Ok(())), ignored),
    ensures
        refresh.status ==> (result matches Err(error) && error@ == failed@),
        !refresh.status ==> (result matches Ok(client) && client@ == text::decimal(pid as nat)),
        ignored matches Ok(client) && client@ == text::decimal(pid as nat),
{
}

/// A size that makes no sense is refused in its own words, whoever asks for it.
pub proof fn a_senseless_size_is_refused(
    clients: ActiveControlState,
    identity: ControlClientIdentity,
    request: RefreshClientRequest,
    value: String,
    result: Result<ControlRefresh, RmuxError>,
)
    requires
        call_ensures(handle_refresh_control_client, (&clients, identity, &request), result),
        request.control_size == Some(value),
        control_size(value@) is None,
        !request.attach_only(),
    ensures
        result matches Err(error) && error@ == ErrorModel::Server(
            "invalid refresh-client size '"@ + value@ + "'"@,
        ),
{
}

/// Who is refused for want of an attached client is told so.
pub proof fn an_absent_client_is_told_so(
    clients: ActiveControlState,
    identity: ControlClientIdentity,
    request: RefreshClientRequest,
    result: Result<ControlRefresh, RmuxError>,
)
    requires
        call_ensures(handle_refresh_control_client, (&clients, identity, &request), result),
        request.control_size is None,
        request.attach_only() || control_clients::entry_at(clients.by_pid@, identity.pid()) is None,
    ensures
        result matches Err(error) && error@ == ErrorModel::Server(
            "refresh-client"@ + " requires an attached client"@,
        ),
{
}

} // verus!
