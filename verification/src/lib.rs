//! Server-side decision logic of a terminal multiplexer.
use vstd::prelude::*;

pub mod bracketed_paste;
pub mod bytes;
pub mod control;
pub mod control_clients;
pub mod control_commands;
pub mod control_events;
pub mod control_lines;
pub mod control_output;
pub mod copy_mode_input;
pub mod error;
pub mod keys;
pub mod leases;
pub mod live_input;
pub mod live_scan;
pub mod live_step;
pub mod mouse_report;
pub mod output_subscriptions;
pub mod overlay_parse;
pub mod palette_response;
pub mod pane_by_id;
pub mod pane_options;
pub mod pane_state;
pub mod popup_job;
pub mod quiet_commands;
pub mod refresh_client;
pub mod request_identity;
pub mod requester_access;
pub mod scope_support;
pub mod sessions;
pub mod terminal_response;
pub mod text;
pub mod tree_kill;
pub mod windows_console_sequence;

verus! {

} // verus!
