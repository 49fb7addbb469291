//! Subscriptions to the output of a pane.
//!
//! The registry of subscriptions, with its limits, and the receivers of output are
//! the caller's. Kept here is which subscriptions have a receiver.
use crate::error;
use crate::error::{ErrorModel, RmuxError};
use crate::pane_state;
use crate::sessions::PaneTarget;
use crate::text;
use std::collections::VecDeque;
use vstd::prelude::*;

verus! {

/// Output that was lost before it was read.
#[derive(Debug, Clone, Copy, PartialEq, Eq, Structural)]
pub struct OutputGap {
    pub expected_sequence: u64,
    pub resume_sequence: u64,
    pub missed_events: u64,
    pub newest_sequence: u64,
}

/// What a receiver hands out.
#[derive(Debug, PartialEq, Eq)]
pub enum OutputCursorItem {
    Event(PaneOutputEvent),
    Gap(OutputGap),
}

/// Output of a pane.
#[derive(Debug, PartialEq, Eq)]
pub struct PaneOutputEvent {
    pub sequence: u64,
    pub bytes: Vec<u8>,
}

/// What was read of a subscription.
#[derive(Debug, PartialEq, Eq)]
pub enum OutputRead {
    /// Events in order; there may be more where `limited`.
    Events { events: Vec<PaneOutputEvent>, limited: bool },
    Lag(OutputGap),
}

/// Why there is no further subscription.
#[derive(Debug, Clone, Copy, PartialEq, Eq, Structural)]
pub enum SubscriptionLimitError {
    PerConnection { limit: u64 },
    PerPane { limit: u64 },
}

/// Why there is no further subscription, in words.
pub open spec fn limit_refusal(error: SubscriptionLimitError) -> ErrorModel {
    match error {
        SubscriptionLimitError::PerConnection { limit } => ErrorModel::Server(
            "pane output subscription limit exceeded for connection (limit "@ + text::decimal(
                limit as nat,
            ) + ")"@,
        ),
        SubscriptionLimitError::PerPane { limit } => ErrorModel::Server(
            "pane output subscription limit exceeded for pane (limit "@ + text::decimal(
                limit as nat,
            ) + ")"@,
        ),
    }
}

/// The refusal of a further subscription.
pub fn subscription_limit_error(error: SubscriptionLimitError) -> (refusal: RmuxError)
    ensures
        refusal@ == limit_refusal(error),
{
    let (mut text, limit) = match error {
        SubscriptionLimitError::PerConnection { limit } => (
            "pane output subscription limit exceeded for connection (limit ".to_owned(),
            limit,
        ),
        SubscriptionLimitError::PerPane { limit } => (
            "pane output subscription limit exceeded for pane (limit ".to_owned(),
            limit,
        ),
    };
    text::push_decimal(&mut text, limit);
    text.append(")");
    RmuxError::Server(text)
}

/// The most events that are read at once.
pub fn cursor_event_limit(requested: Option<u16>, default: usize) -> (limit: Result<
    usize,
    RmuxError,
>)
    ensures
        match pane_state::cursor_limit(requested, default) {
            Some(expected) => limit == Ok::<usize, RmuxError>(expected),
            None => limit matches Err(error) && error@ == ErrorModel::Server(
                "pane output cursor max_events must be greater than zero"@,
            ),
        },
{
    match requested {
        Some(value) => {
            if value == 0 {
                Err(error::server_error("pane output cursor max_events must be greater than zero"))
            } else if (value as usize) < default {
                Ok(value as usize)
            } else {
                Ok(default)
            }
        },
        None => Ok(default),
    }
}

/// How many of the items come before the first gap, `limit` at most.
pub open spec fn leading_events(items: Seq<OutputCursorItem>, limit: nat) -> nat
    decreases limit,
{
    if limit == 0 || items.len() == 0 || !(items[0] is Event) {
        0
    } else {
        1 + leading_events(items.subrange(1, items.len() as int), (limit - 1) as nat)
    }
}

/// The events among the items.
pub open spec fn events_of(items: Seq<OutputCursorItem>) -> Seq<PaneOutputEvent> {
    items.map_values(|item: OutputCursorItem| item->Event_0)
}

proof fn lemma_leading_events(items: Seq<OutputCursorItem>, limit: nat, n: int)
    requires
        0 <= n <= items.len(),
        n <= limit,
        forall|i: int| 0 <= i < n ==> #[trigger] items[i] is Event,
        n == limit || n == items.len() || !(items[n] is Event),
    ensures
        leading_events(items, limit) == n,
    decreases limit,
{
    if n > 0 {
        assert(items[0] is Event);
        let rest = items.subrange(1, items.len() as int);
        assert forall|i: int| 0 <= i < n - 1 implies #[trigger] rest[i] is Event by {
            assert(rest[i] == items[i + 1]);
        }
        if n < items.len() {
            assert(rest[n - 1] == items[n]);
        }
        lemma_leading_events(rest, (limit - 1) as nat, n - 1);
    }
}

/// Reads events from what a receiver has ready, `limit` at most. A gap ends the
/// read: it is the answer, and the events before it are dropped.
pub fn read_output_events(ready: &mut VecDeque<OutputCursorItem>, limit: usize) -> (read:
    OutputRead)
    ensures
        ({
            let items = old(ready)@;
            let n = leading_events(items, limit as nat) as int;
            if n < limit && n < items.len() {
                &&& read == OutputRead::Lag(items[n]->Gap_0)
                &&& final(ready)@ == items.subrange(n + 1, items.len() as int)
            } else {
                &&& read matches OutputRead::Events { events, limited }
                &&& events@ == events_of(items.take(n))
                &&& limited == (n == limit)
                &&& final(ready)@ == items.subrange(n, items.len() as int)
            }
        }),
{
    let ghost items = ready@;
    let mut events: Vec<PaneOutputEvent> = Vec::new();
    let mut i: usize = 0;
    assert(ready@ =~= items.subrange(0, items.len() as int));
    while i < limit && ready.len() > 0
        invariant
            i <= limit,
            i <= items.len(),
            forall|j: int| 0 <= j < i ==> #[trigger] items[j] is Event,
            ready@ == items.subrange(i as int, items.len() as int),
            events@ == events_of(items.take(i as int)),
            items == old(ready)@,
        decreases limit - i,
    {
        let ghost rest = ready@;
        assert(rest[0] == items[i as int]);
        match ready.pop_front() {
            Some(OutputCursorItem::Event(event)) => {
                events.push(event);
                i = i + 1;
                proof {
                    assert(ready@ =~= items.subrange(i as int, items.len() as int));
                    assert(events@ =~= events_of(items.take(i as int)));
                }
            },
            Some(OutputCursorItem::Gap(gap)) => {
                proof {
                    lemma_leading_events(items, limit as nat, i as int);
                    assert(ready@ =~= items.subrange(i + 1, items.len() as int));
                }
                return OutputRead::Lag(gap);
            },
            None => {},
        }
    }
    proof {
        lemma_leading_events(items, limit as nat, i as int);
    }
    let limited = events.len() == limit;
    OutputRead::Events { events, limited }
}

/// What a subscriber is told of a gap. No recent output goes with it.
#[derive(Debug, PartialEq, Eq)]
pub struct PaneOutputLagNotice {
    pub expected_sequence: u64,
    pub resume_sequence: u64,
    pub missed_events: u64,
    pub newest_sequence: u64,
    pub recent_bytes: Vec<u8>,
    pub recent_oldest_sequence: Option<u64>,
    pub recent_newest_sequence: Option<u64>,
}

/// `notice` tells of `gap`, without recent output.
pub open spec fn tells_of(notice: PaneOutputLagNotice, gap: OutputGap) -> bool {
    &&& notice.expected_sequence == gap.expected_sequence
    &&& notice.resume_sequence == gap.resume_sequence
    &&& notice.missed_events == gap.missed_events
    &&& notice.newest_sequence == gap.newest_sequence
    &&& notice.recent_bytes@.len() == 0
    &&& notice.recent_oldest_sequence is None
    &&& notice.recent_newest_sequence is None
}

/// What a subscriber is told of a gap.
pub fn lag_dto(gap: &OutputGap) -> (notice: PaneOutputLagNotice)
    ensures
        tells_of(notice, *gap),
{
    PaneOutputLagNotice {
        expected_sequence: gap.expected_sequence,
        resume_sequence: gap.resume_sequence,
        missed_events: gap.missed_events,
        newest_sequence: gap.newest_sequence,
        recent_bytes: Vec::new(),
        recent_oldest_sequence: None,
        recent_newest_sequence: None,
    }
}

/// Where a receiver stands in the output of its pane.
#[derive(Debug, Clone, Copy, PartialEq, Eq, Structural)]
pub struct OutputCursor {
    pub next_sequence: u64,
    pub missed_events: u64,
}

/// Where a subscription begins.
#[derive(Debug, Clone, Copy, PartialEq, Eq, Structural)]
pub enum PaneOutputSubscriptionStart {
    /// With the next output.
    Now,
    /// With the oldest output that is kept.
    Oldest,
}

/// Where a receiver of a pane's output stands at first, by where it begins.
#[derive(Debug, Clone, Copy, PartialEq, Eq, Structural)]
pub struct OutputStarts {
    pub now: OutputCursor,
    pub oldest: OutputCursor,
}

impl OutputStarts {
    /// Where a receiver that begins at `start` stands.
    pub open spec fn at(self, start: PaneOutputSubscriptionStart) -> OutputCursor {
        match start {
            PaneOutputSubscriptionStart::Now => self.now,
            PaneOutputSubscriptionStart::Oldest => self.oldest,
        }
    }

    /// Where a receiver that begins at `start` stands.
    pub fn receiver_at(self, start: PaneOutputSubscriptionStart) -> (cursor: OutputCursor)
        ensures
            cursor == self.at(start),
    {
        match start {
            PaneOutputSubscriptionStart::Now => self.now,
            PaneOutputSubscriptionStart::Oldest => self.oldest,
        }
    }
}

/// What a subscriber is told of where it stands.
#[derive(Debug, Clone, Copy, PartialEq, Eq, Structural)]
pub struct PaneOutputCursor {
    pub next_sequence: u64,
    pub missed_events: u64,
}

/// What a subscriber is told of where it stands.
pub open spec fn cursor_told(cursor: OutputCursor) -> PaneOutputCursor {
    PaneOutputCursor {
        next_sequence: cursor.next_sequence,
        missed_events: cursor.missed_events,
    }
}

/// What a subscriber is told of where it stands.
pub fn cursor_dto(cursor: &OutputCursor) -> (told: PaneOutputCursor)
    ensures
        told == cursor_told(*cursor),
{
    PaneOutputCursor {
        next_sequence: cursor.next_sequence,
        missed_events: cursor.missed_events,
    }
}

/// The answer to a read of a subscription.
#[derive(Debug, PartialEq, Eq)]
pub enum PaneOutputAnswer {
    Cursor {
        subscription_id: u64,
        cursor: PaneOutputCursor,
        events: Vec<PaneOutputEvent>,
        limited: bool,
    },
    Lag { subscription_id: u64, cursor: PaneOutputCursor, lag: PaneOutputLagNotice },
}

/// The answer to a read of a subscription whose receiver stands at `cursor` after it.
pub fn pane_output_answer(subscription_id: u64, cursor: &OutputCursor, read: OutputRead) -> (answer:
    PaneOutputAnswer)
    ensures
        match (read, answer) {
            (
                OutputRead::Events { events, limited },
                PaneOutputAnswer::Cursor {
                    subscription_id: id,
                    cursor: told,
                    events: given,
                    limited: more,
                },
            ) => id == subscription_id && told == cursor_told(*cursor) && given == events && more
                == limited,
            (
                OutputRead::Lag(gap),
                PaneOutputAnswer::Lag { subscription_id: id, cursor: told, lag },
            ) => id == subscription_id && told == cursor_told(*cursor) && tells_of(lag, gap),
            _ => false,
        },
{
    let cursor = cursor_dto(cursor);
    match read {
        OutputRead::Events { events, limited } => PaneOutputAnswer::Cursor {
            subscription_id,
            cursor,
            events,
            limited,
        },
        OutputRead::Lag(gap) => PaneOutputAnswer::Lag {
            subscription_id,
            cursor,
            lag: lag_dto(&gap),
        },
    }
}

/// The answer to a subscription.
#[derive(Debug, PartialEq, Eq)]
pub struct SubscribePaneOutputResponse {
    pub subscription_id: u64,
    pub target: PaneTarget,
    pub pane_id: u32,
    pub cursor: PaneOutputCursor,
}

/// The subscriptions that have a receiver.
#[derive(Debug, PartialEq, Eq)]
pub struct OutputSubscriptionState {
    pub receivers: Vec<u64>,
}

/// What a read of a subscription needs.
#[derive(Debug, PartialEq, Eq)]
pub enum OutputCursorAdmission {
    /// The subscription is marked as in use, and read.
    Read { limit: usize },
    Refused(RmuxError),
    /// The subscription has no receiver, and is taken out of the registry.
    Dropped(RmuxError),
}

impl OutputSubscriptionState {
    /// No subscription is listed twice.
    pub open spec fn wf(&self) -> bool {
        self.receivers@.no_duplicates()
    }

    /// No subscriptions.
    pub fn new() -> (state: Self)
        ensures
            state.wf(),
            state.receivers@.len() == 0,
    {
        OutputSubscriptionState { receivers: Vec::new() }
    }

    fn find(&self, id: u64) -> (at: Option<usize>)
        ensures
            match at {
                Some(at) => at < self.receivers@.len() && self.receivers@[at as int] == id,
                None => !self.receivers@.contains(id),
            },
    {
        let mut i: usize = 0;
        while i < self.receivers.len()
            invariant
                i <= self.receivers@.len(),
                forall|j: int| 0 <= j < i ==> self.receivers@[j] != id,
            decreases self.receivers.len() - i,
        {
            if self.receivers[i] == id {
                return Some(i);
            }
            i = i + 1;
        }
        None
    }

    /// Whether a subscription has a receiver.
    pub fn has_receiver(&self, id: u64) -> (has: bool)
        ensures
            has == self.receivers@.contains(id),
    {
        match self.find(id) {
            Some(at) => {
                assert(self.receivers@[at as int] == id);
                true
            },
            None => false,
        }
    }

    fn insert(&mut self, id: u64)
        requires
            old(self).wf(),
        ensures
            final(self).wf(),
            forall|other: u64| #[trigger]
                final(self).receivers@.contains(other) == (old(self).receivers@.contains(other)
                    || other == id),
    {
        if self.find(id).is_none() {
            let ghost before = self.receivers@;
            self.receivers.push(id);
            proof {
                let after = self.receivers@;
                assert forall|other: u64| #[trigger]
                    after.contains(other) == (before.contains(other) || other == id) by {
                    if before.contains(other) {
                        let k = choose|k: int| 0 <= k < before.len() && before[k] == other;
                        assert(after[k] == other);
                    }
                    if other == id {
                        assert(after[before.len() as int] == other);
                    }
                    if after.contains(other) && other != id {
                        let k = choose|k: int| 0 <= k < after.len() && after[k] == other;
                        assert(before[k] == other);
                    }
                }
                assert forall|i: int, j: int|
                    0 <= i < after.len() && 0 <= j < after.len() && i != j implies after[i]
                    != after[j] by {
                    if i < before.len() && j < before.len() {
                        assert(before[i] != before[j]);
                    } else if i < before.len() {
                        assert(before.contains(before[i]));
                    } else {
                        assert(before.contains(before[j]));
                    }
                }
            }
        }
    }

    fn remove(&mut self, id: u64)
        requires
            old(self).wf(),
        ensures
            final(self).wf(),
            forall|other: u64| #[trigger]
                final(self).receivers@.contains(other) == (old(self).receivers@.contains(other)
                    && other != id),
    {
        if let Some(at) = self.find(id) {
            let ghost before = self.receivers@;
            let _ = self.receivers.remove(at);
            proof {
                let after = self.receivers@;
                assert forall|k: int| 0 <= k < after.len() implies #[trigger] after[k]
                    == before[if k < at {
                    k
                } else {
                    k + 1
                }] by {}
                assert forall|other: u64| #[trigger]
                    after.contains(other) == (before.contains(other) && other != id) by {
                    if before.contains(other) && other != id {
                        let k = choose|k: int| 0 <= k < before.len() && before[k] == other;
                        let m = if k < at {
                            k
                        } else {
                            k - 1
                        };
                        assert(after[m] == other);
                    }
                    if after.contains(other) {
                        let k = choose|k: int| 0 <= k < after.len() && after[k] == other;
                        let m = if k < at {
                            k
                        } else {
                            k + 1
                        };
                        assert(before[m] == other);
                        assert(before[at as int] == id && m != at);
                    }
                }
            }
        }
    }

    /// Drops the receivers of subscriptions that left the registry, whether they
    /// were stale, or their connection or their pane is gone.
    pub fn remove_records(&mut self, records: &Vec<u64>)
        requires
            old(self).wf(),
        ensures
            final(self).wf(),
            forall|id: u64| #[trigger]
                final(self).receivers@.contains(id) == (old(self).receivers@.contains(id)
                    && !records@.contains(id)),
    {
        let mut i: usize = 0;
        while i < records.len()
            invariant
                i <= records@.len(),
                self.wf(),
                forall|id: u64| #[trigger]
                    self.receivers@.contains(id) == (old(self).receivers@.contains(id)
                        && !records@.take(i as int).contains(id)),
            decreases records.len() - i,
        {
            proof {
                let before = records@.take(i as int);
                let after = records@.take(i + 1);
                assert forall|id: u64| #[trigger]
                    after.contains(id) == (before.contains(id) || id == records@[i as int]) by {
                    if before.contains(id) {
                        let k = choose|k: int| 0 <= k < before.len() && before[k] == id;
                        assert(after[k] == id);
                    }
                    if id == records@[i as int] {
                        assert(after[i as int] == id);
                    }
                    if after.contains(id) && id != records@[i as int] {
                        let k = choose|k: int| 0 <= k < after.len() && after[k] == id;
                        assert(before[k] == id);
                    }
                }
            }
            self.remove(records[i]);
            i = i + 1;
        }
        assert(records@.take(i as int) =~= records@);
    }

    /// Subscribes to the output of the pane at `target`, from `start` on. `pane` is the
    /// pane's id, `output` where receivers of its output begin, `record` the id that
    /// the registry gave.
    pub fn handle_subscribe_pane_output(
        &mut self,
        target: PaneTarget,
        start: PaneOutputSubscriptionStart,
        pane: Result<u32, RmuxError>,
        output: Result<OutputStarts, RmuxError>,
        record: Result<u64, SubscriptionLimitError>,
    ) -> (result: Result<SubscribePaneOutputResponse, RmuxError>)
        requires
            old(self).wf(),
        ensures
            final(self).wf(),
            match (pane, output, record) {
                (Err(refusal), _, _) => result matches Err(error) && error@ == refusal@
                    && *final(self) == *old(self),
                (Ok(_), Err(refusal), _) => result matches Err(error) && error@ == refusal@
                    && *final(self) == *old(self),
                (Ok(_), Ok(_), Err(limit)) => result matches Err(error) && error@ == limit_refusal(
                    limit,
                ) && *final(self) == *old(self),
                (Ok(pane_id), Ok(starts), Ok(id)) => {
                    &&& result == Ok::<SubscribePaneOutputResponse, RmuxError>(
                        SubscribePaneOutputResponse {
                            subscription_id: id,
                            target,
                            pane_id,
                            cursor: cursor_told(starts.at(start)),
                        },
                    )
                    &&& forall|other: u64| #[trigger]
                        final(self).receivers@.contains(other) == (
                        old(self).receivers@.contains(other) || other == id)
                },
            },
    {
        let pane_id: u32 = match pane {
            Ok(pane_id) => pane_id,
            Err(error) => {
                return Err(error);
            },
        };
        let cursor = match output {
            Ok(starts) => starts.receiver_at(start),
            Err(error) => {
                return Err(error);
            },
        };
        match record {
            Err(limit) => Err(subscription_limit_error(limit)),
            Ok(id) => {
                self.insert(id);
                Ok(
                    SubscribePaneOutputResponse {
                        subscription_id: id,
                        target,
                        pane_id,
                        cursor: cursor_dto(&cursor),
                    },
                )
            },
        }
    }

    /// Ends a subscription. `owner` is the connection that it belongs to, if it is
    /// in the registry. The answer is whether there was one.
    pub fn handle_unsubscribe_pane_output(
        &mut self,
        id: u64,
        owner: Option<u64>,
        connection_id: u64,
    ) -> (result: Result<bool, RmuxError>)
        requires
            old(self).wf(),
        ensures
            final(self).wf(),
            match owner {
                None => result == Ok::<bool, RmuxError>(false) && *final(self) == *old(self),
                Some(owner) => if owner != connection_id {
                    result matches Err(error) && error@ == ErrorModel::Server(
                        "subscription is not owned by this connection"@,
                    ) && *final(self) == *old(self)
                } else {
                    result == Ok::<bool, RmuxError>(true) && forall|other: u64| #[trigger]
                        final(self).receivers@.contains(other) == (
                        old(self).receivers@.contains(other) && other != id)
                },
            },
    {
        match owner {
            None => Ok(false),
            Some(owner) => {
                if owner != connection_id {
                    return Err(
                        error::server_error("subscription is not owned by this connection"),
                    );
                }
                self.remove(id);
                Ok(true)
            },
        }
    }

    /// What a read of a subscription needs: a limit that makes sense, a
    /// subscription of the connection, and its receiver.
    pub fn handle_pane_output_cursor(
        &self,
        id: u64,
        owner: Option<u64>,
        connection_id: u64,
        max_events: Option<u16>,
        batch_events: usize,
    ) -> (admission: OutputCursorAdmission)
        ensures
            match (pane_state::cursor_limit(max_events, batch_events), owner) {
                (None, _) => admission matches OutputCursorAdmission::Refused(error) && error@
                    == ErrorModel::Server(
                    "pane output cursor max_events must be greater than zero"@,
                ),
                (Some(_), None) => admission matches OutputCursorAdmission::Refused(error)
                    && error@ == ErrorModel::Server("subscription not found"@),
                (Some(limit), Some(owner)) => if owner != connection_id {
                    admission matches OutputCursorAdmission::Refused(error) && error@
                        == ErrorModel::Server("subscription is not owned by this connection"@)
                } else if !self.receivers@.contains(id) {
                    admission matches OutputCursorAdmission::Dropped(error) && error@
                        == ErrorModel::Server("subscription receiver not found"@)
                } else {
                    admission == (OutputCursorAdmission::Read { limit })
                },
            },
    {
        let limit: usize = match cursor_event_limit(max_events, batch_events) {
            Ok(limit) => limit,
            Err(error) => {
                return OutputCursorAdmission::Refused(error);
            },
        };
        match owner {
            None => OutputCursorAdmission::Refused(error::server_error("subscription not found")),
            Some(owner) => {
                if owner != connection_id {
                    OutputCursorAdmission::Refused(
                        error::server_error("subscription is not owned by this connection"),
                    )
                } else if !self.has_receiver(id) {
                    OutputCursorAdmission::Dropped(
                        error::server_error("subscription receiver not found"),
                    )
                } else {
                    OutputCursorAdmission::Read { limit }
                }
            },
        }
    }
}

/// Reading on after a read that met no gap gives what one longer read would have
/// given: no event is lost or handed out twice.
pub proof fn reads_continue_where_they_stopped(items: Seq<OutputCursorItem>, first: nat, more: nat)
    requires
        leading_events(items, first) == first,
    ensures
        leading_events(items, first + more) == first + leading_events(
            items.subrange(first as int, items.len() as int),
            more,
        ),
    decreases first,
{
    if first == 0 {
        assert(items.subrange(0, items.len() as int) =~= items);
    } else {
        let rest = items.subrange(1, items.len() as int);
        reads_continue_where_they_stopped(rest, (first - 1) as nat, more);
        lemma_leading_fits(rest, (first - 1) as nat);
        assert(rest.subrange(first - 1, rest.len() as int) =~= items.subrange(
            first as int,
            items.len() as int,
        ));
    }
}

proof fn lemma_leading_fits(items: Seq<OutputCursorItem>, limit: nat)
    ensures
        leading_events(items, limit) <= limit,
        leading_events(items, limit) <= items.len(),
    decreases limit,
{
    if limit > 0 && items.len() > 0 && items[0] is Event {
        lemma_leading_fits(items.subrange(1, items.len() as int), (limit - 1) as nat);
    }
}

/// A limit that is reached is told with what it is of, and how high it is.
pub proof fn a_limit_is_told_with_its_number(
    limit: u64,
    connection: RmuxError,
    pane: RmuxError,
)
    requires
        call_ensures(
            subscription_limit_error,
            (SubscriptionLimitError::PerConnection { limit },),
            connection,
        ),
        call_ensures(subscription_limit_error, (SubscriptionLimitError::PerPane { limit },), pane),
    ensures
        connection@ == ErrorModel::Server(
            "pane output subscription limit exceeded for connection (limit "@ + text::decimal(
                limit as nat,
            ) + ")"@,
        ),
        pane@ == ErrorModel::Server(
            "pane output subscription limit exceeded for pane (limit "@ + text::decimal(
                limit as nat,
            ) + ")"@,
        ),
{
}

/// As many events are read as are asked for, up to what is read by default; asking for
/// none is refused.
pub proof fn a_read_keeps_to_its_limit(
    requested: Option<u16>,
    default: usize,
    limit: Result<usize, RmuxError>,
)
    requires
        call_ensures(cursor_event_limit, (requested, default), limit),
    ensures
        requested is None ==> limit == Ok::<usize, RmuxError>(default),
        requested matches Some(value) ==> {
            &&& value == 0 ==> (limit matches Err(error) && error@ == ErrorModel::Server(
                "pane output cursor max_events must be greater than zero"@,
            ))
            &&& 0 < value <= default ==> (limit matches Ok(given) && given == value)
            &&& value > default && value > 0 ==> limit == Ok::<usize, RmuxError>(default)
        },
{
}

/// All events before the first gap are read, up to the limit, and none behind it.
pub proof fn a_read_goes_up_to_the_first_gap(
    events: Seq<OutputCursorItem>,
    gap: OutputGap,
    rest: Seq<OutputCursorItem>,
    limit: nat,
)
    requires
        forall|i: int| 0 <= i < events.len() ==> (#[trigger] events[i]) is Event,
    ensures
        leading_events(events + seq![OutputCursorItem::Gap(gap)] + rest, limit) == if events.len()
            <= limit {
            events.len()
        } else {
            limit
        },
        leading_events(events, limit) == if events.len() <= limit {
            events.len()
        } else {
            limit
        },
    decreases limit,
{
    let all = events + seq![OutputCursorItem::Gap(gap)] + rest;
    if limit > 0 {
        if events.len() == 0 {
            assert(all[0] == OutputCursorItem::Gap(gap));
        } else {
            let fewer = events.subrange(1, events.len() as int);
            assert forall|i: int| 0 <= i < fewer.len() implies (#[trigger] fewer[i]) is Event by {
                assert(fewer[i] == events[i + 1]);
            }
            a_read_goes_up_to_the_first_gap(fewer, gap, rest, (limit - 1) as nat);
            assert(all[0] == events[0]);
            assert(all.subrange(1, all.len() as int) =~= fewer + seq![OutputCursorItem::Gap(gap)]
                + rest);
        }
    }
}

/// A subscription begins with the next output or with the oldest that is kept, as it
/// asks, and is told where it stands by the numbers of its receiver.
pub proof fn a_subscription_begins_where_it_asks(
    starts: OutputStarts,
    now: OutputCursor,
    oldest: OutputCursor,
    told: PaneOutputCursor,
)
    requires
        call_ensures(OutputStarts::receiver_at, (starts, PaneOutputSubscriptionStart::Now), now),
        call_ensures(
            OutputStarts::receiver_at,
            (starts, PaneOutputSubscriptionStart::Oldest),
            oldest,
        ),
        call_ensures(cursor_dto, (&now,), told),
    ensures
        now == starts.now,
        oldest == starts.oldest,
        told.next_sequence == starts.now.next_sequence,
        told.missed_events == starts.now.missed_events,
{
}

/// A gap is told by its own numbers, without recent output.
pub proof fn a_gap_is_told_by_its_numbers(gap: OutputGap, notice: PaneOutputLagNotice)
    requires
        call_ensures(lag_dto, (&gap,), notice),
    ensures
        notice.expected_sequence == gap.expected_sequence,
        notice.resume_sequence == gap.resume_sequence,
        notice.missed_events == gap.missed_events,
        notice.newest_sequence == gap.newest_sequence,
        notice.recent_bytes@.len() == 0,
        notice.recent_oldest_sequence is None && notice.recent_newest_sequence is None,
{
}

/// The events of a read are those of its items, in order.
pub proof fn events_are_handed_out_in_order(
    items: Seq<OutputCursorItem>,
    event: PaneOutputEvent,
    i: int,
)
    requires
        0 <= i < items.len(),
        items[i] == OutputCursorItem::Event(event),
    ensures
        events_of(items).len() == items.len(),
        events_of(items)[i] == event,
{
}

} // verus!
