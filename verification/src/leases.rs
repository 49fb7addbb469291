//! Leases of sessions: a session that a program owns ends with its lease unless
//! the program renews it.
//!
//! A lease is held by a token. It stays with the session that it was made for,
//! whatever that session is called later, and never passes to another session of
//! the same name.
use crate::error;
use crate::error::{ErrorModel, RmuxError};
use crate::sessions::SessionStore;
use crate::text;
use vstd::prelude::*;

verus! {

/// How a request for a lease names its session.
#[derive(Debug, Clone, Copy, PartialEq, Eq, Structural)]
pub enum SessionLeaseCreateAddressing {
    Nominal,
    StableId,
}

/// How the current request names its session; by name, unless `scoped` says
/// otherwise.
pub fn current_session_lease_create_addressing(
    scoped: Option<SessionLeaseCreateAddressing>,
) -> (addressing: SessionLeaseCreateAddressing)
    ensures
        addressing == match scoped {
            Some(addressing) => addressing,
            None => SessionLeaseCreateAddressing::Nominal,
        },
{
    match scoped {
        Some(addressing) => addressing,
        None => SessionLeaseCreateAddressing::Nominal,
    }
}

/// A lease. The owner knows the session by `wire_session_name`. Times are in
/// milliseconds.
#[derive(Debug, PartialEq, Eq)]
pub struct SessionOwnership {
    pub session_id: u32,
    pub token: u64,
    pub wire_session_name: String,
    pub current_session_name: String,
    pub deadline: u128,
}

/// A lease as a value.
pub struct LeaseModel {
    pub token: u64,
    pub wire_session_name: Seq<char>,
    pub current_session_name: Seq<char>,
    pub deadline: int,
}

impl View for SessionOwnership {
    type V = LeaseModel;

    open spec fn view(&self) -> LeaseModel {
        LeaseModel {
            token: self.token,
            wire_session_name: self.wire_session_name@,
            current_session_name: self.current_session_name@,
            deadline: self.deadline as int,
        }
    }
}

/// The leases, one for each session at most.
#[derive(Debug, PartialEq, Eq)]
pub struct SessionLeaseStore {
    pub ownerships: Vec<SessionOwnership>,
    pub next_token: u64,
}

/// The session with the id `id` has a lease.
pub open spec fn is_leased(leases: Seq<SessionOwnership>, id: u32) -> bool {
    exists|i: int| 0 <= i < leases.len() && (#[trigger] leases[i]).session_id == id
}

/// The leases by the ids of their sessions.
pub open spec fn lease_map(leases: Seq<SessionOwnership>) -> Map<u32, LeaseModel> {
    Map::new(
        |id: u32| is_leased(leases, id),
        |id: u32|
            leases[choose|i: int|
                0 <= i < leases.len() && (#[trigger] leases[i]).session_id == id]@,
    )
}

/// No two leases are for one session.
pub open spec fn one_lease_each(leases: Seq<SessionOwnership>) -> bool {
    forall|i: int, j: int|
        0 <= i < j < leases.len() ==> (#[trigger] leases[i]).session_id != (
        #[trigger] leases[j]).session_id
}

/// No two leases have one token, and no token is above the last one handed out.
pub open spec fn tokens_are_fresh(leases: Map<u32, LeaseModel>, last: u64) -> bool {
    &&& forall|id: u32| #[trigger] leases.contains_key(id) ==> leases[id].token <= last
    &&& forall|a: u32, b: u32|
        #[trigger] leases.contains_key(a) && #[trigger] leases.contains_key(b) && a != b
            ==> leases[a].token != leases[b].token
}

/// The session with the id `id` is the one that a token holds a lease of, and it
/// still has the name that the lease knows.
pub open spec fn holds(
    leases: Map<u32, LeaseModel>,
    store: SessionStore,
    wire_session_name: Seq<char>,
    token: u64,
    id: u32,
) -> bool {
    &&& leases.contains_key(id)
    &&& leases[id].token == token
    &&& leases[id].wire_session_name == wire_session_name
    &&& store.session_by_id_spec(id) matches Some(session)
    &&& session.name@ == leases[id].current_session_name
}

/// The leases without those of sessions that are given by name and id; a session
/// that is called otherwise now keeps its lease.
pub open spec fn without_sessions(
    leases: Map<u32, LeaseModel>,
    sessions: Seq<(Seq<char>, u32)>,
) -> Map<u32, LeaseModel> {
    Map::new(
        |id: u32|
            leases.contains_key(id) && !sessions.contains((leases[id].current_session_name, id)),
        |id: u32| leases[id],
    )
}

/// The leases and the token that was handed out last.
pub type LeaseState = (Map<u32, LeaseModel>, u64);

/// Something that is done to the leases.
pub enum LeaseMove {
    /// A session is leased under the next token; an earlier lease of it ends.
    Create {
        session_id: u32,
        wire_session_name: Seq<char>,
        current_session_name: Seq<char>,
        deadline: int,
    },
    Renew { session_id: u32, deadline: int },
    Release { session_id: u32 },
    /// Sessions are gone.
    Remove(Seq<(Seq<char>, u32)>),
    Rename { session_id: u32, new_name: Seq<char> },
    /// Leases run out.
    Expire { now: u64 },
    /// The request was refused.
    Refuse,
}

/// The leases went from `before` to `after`.
pub open spec fn leases_moved(before: LeaseState, after: LeaseState, step: LeaseMove) -> bool {
    let (leases, last) = before;
    match step {
        LeaseMove::Create { session_id, wire_session_name, current_session_name, deadline } => {
            &&& last < u64::MAX
            &&& after == (
                leases.insert(
                    session_id,
                    LeaseModel {
                        token: (last + 1) as u64,
                        wire_session_name,
                        current_session_name,
                        deadline,
                    },
                ),
                (last + 1) as u64,
            )
        },
        LeaseMove::Renew { session_id, deadline } => {
            &&& leases.contains_key(session_id)
            &&& after == (
                leases.insert(session_id, LeaseModel { deadline, ..leases[session_id] }),
                last,
            )
        },
        LeaseMove::Release { session_id } => {
            &&& leases.contains_key(session_id)
            &&& after == (leases.remove(session_id), last)
        },
        LeaseMove::Remove(sessions) => after == (without_sessions(leases, sessions), last),
        LeaseMove::Rename { session_id, new_name } => {
            &&& leases.contains_key(session_id)
            &&& after == (
                leases.insert(
                    session_id,
                    LeaseModel { current_session_name: new_name, ..leases[session_id] },
                ),
                last,
            )
        },
        LeaseMove::Expire { now } => after == (still_leased(leases, now), last),
        LeaseMove::Refuse => after == before,
    }
}

/// Names and ids as values.
pub open spec fn session_keys(sessions: Seq<(String, u32)>) -> Seq<(Seq<char>, u32)> {
    sessions.map_values(|session: (String, u32)| (session.0@, session.1))
}

/// `expired` holds what has run out, by name.
pub open spec fn lists_expired(
    expired: Seq<(String, u32)>,
    leases: Map<u32, LeaseModel>,
    now: u64,
) -> bool {
    &&& forall|i: int|
        0 <= i < expired.len() ==> {
            let (name, id) = #[trigger] expired[i];
            leases.contains_key(id) && leases[id].deadline <= now
                && leases[id].current_session_name == name@
        }
    &&& forall|id: u32| #[trigger]
        leases.contains_key(id) && leases[id].deadline <= now ==> lists_id(expired, id)
    &&& in_name_order(expired)
    &&& each_id_once(expired)
}

/// The leases that have not run out.
pub open spec fn still_leased(leases: Map<u32, LeaseModel>, now: u64) -> Map<u32, LeaseModel> {
    Map::new(
        |id: u32| leases.contains_key(id) && leases[id].deadline > now,
        |id: u32| leases[id],
    )
}

/// Some session in the list has the id `id`.
pub open spec fn lists_id(sessions: Seq<(String, u32)>, id: u32) -> bool {
    exists|i: int| 0 <= i < sessions.len() && (#[trigger] sessions[i]).1 == id
}

/// No name comes before an earlier one.
pub open spec fn in_name_order(sessions: Seq<(String, u32)>) -> bool {
    forall|i: int, j: int|
        0 <= i < j < sessions.len() ==> !text::text_before(
            (#[trigger] sessions[j]).0@,
            (#[trigger] sessions[i]).0@,
        )
}

/// No id is there twice.
pub open spec fn each_id_once(sessions: Seq<(String, u32)>) -> bool {
    forall|i: int, j: int|
        0 <= i < j < sessions.len() ==> (#[trigger] sessions[i]).1 != (#[trigger] sessions[j]).1
}

proof fn lemma_lease_map(leases: Seq<SessionOwnership>)
    requires
        one_lease_each(leases),
    ensures
        forall|i: int|
            0 <= i < leases.len() ==> lease_map(leases).contains_key(
                (#[trigger] leases[i]).session_id,
            ) && lease_map(leases)[leases[i].session_id] == leases[i]@,
{
    assert forall|i: int| 0 <= i < leases.len() implies lease_map(leases).contains_key(
        (#[trigger] leases[i]).session_id,
    ) && lease_map(leases)[leases[i].session_id] == leases[i]@ by {
        let id = leases[i].session_id;
        assert(is_leased(leases, id));
        let k = choose|k: int| 0 <= k < leases.len() && (#[trigger] leases[k]).session_id == id;
        assert(k == i);
    }
}

proof fn lemma_map_push(leases: Seq<SessionOwnership>, lease: SessionOwnership)
    requires
        one_lease_each(leases),
        !is_leased(leases, lease.session_id),
    ensures
        one_lease_each(leases.push(lease)),
        lease_map(leases.push(lease)) == lease_map(leases).insert(lease.session_id, lease@),
{
    let all = leases.push(lease);
    assert forall|i: int, j: int| 0 <= i < j < all.len() implies (#[trigger] all[i]).session_id != (
    #[trigger] all[j]).session_id by {
        assert(all[i] == leases[i]);
        if j < leases.len() {
            assert(all[j] == leases[j]);
        }
    }
    lemma_lease_map(leases);
    lemma_lease_map(all);
    assert forall|id: u32| is_leased(all, id) == (is_leased(leases, id) || id
        == lease.session_id) by {
        if is_leased(leases, id) {
            let i = choose|i: int|
                0 <= i < leases.len() && (#[trigger] leases[i]).session_id == id;
            assert(all[i].session_id == id);
        }
        if id == lease.session_id {
            assert(all[leases.len() as int].session_id == id);
        }
        if is_leased(all, id) && id != lease.session_id {
            let i = choose|i: int| 0 <= i < all.len() && (#[trigger] all[i]).session_id == id;
            assert(leases[i].session_id == id);
        }
    }
    assert forall|id: u32| is_leased(leases, id) implies lease_map(all)[id] == #[trigger] lease_map(
        leases,
    )[id] by {
        let i = choose|i: int| 0 <= i < leases.len() && (#[trigger] leases[i]).session_id == id;
        assert(all[i] == leases[i]);
    }
    assert(all[leases.len() as int] == lease);
    assert(lease_map(all) =~= lease_map(leases).insert(lease.session_id, lease@));
}

proof fn lemma_map_update(leases: Seq<SessionOwnership>, at: int, lease: SessionOwnership)
    requires
        one_lease_each(leases),
        0 <= at < leases.len(),
        lease.session_id == leases[at].session_id,
    ensures
        one_lease_each(leases.update(at, lease)),
        lease_map(leases.update(at, lease)) == lease_map(leases).insert(lease.session_id, lease@),
{
    let all = leases.update(at, lease);
    assert forall|i: int| 0 <= i < all.len() implies (#[trigger] all[i]).session_id
        == leases[i].session_id by {}
    lemma_lease_map(leases);
    lemma_lease_map(all);
    assert forall|id: u32| is_leased(all, id) == is_leased(leases, id) by {
        if is_leased(leases, id) {
            let i = choose|i: int|
                0 <= i < leases.len() && (#[trigger] leases[i]).session_id == id;
            assert(all[i].session_id == id);
        }
        if is_leased(all, id) {
            let i = choose|i: int| 0 <= i < all.len() && (#[trigger] all[i]).session_id == id;
            assert(leases[i].session_id == id);
        }
    }
    assert(is_leased(leases, lease.session_id));
    assert forall|id: u32| is_leased(leases, id) && id != lease.session_id implies lease_map(
        all,
    )[id] == #[trigger] lease_map(leases)[id] by {
        let i = choose|i: int| 0 <= i < leases.len() && (#[trigger] leases[i]).session_id == id;
        assert(all[i] == leases[i]);
    }
    assert(all[at] == lease);
    assert(lease_map(all) =~= lease_map(leases).insert(lease.session_id, lease@));
}

proof fn lemma_map_remove(leases: Seq<SessionOwnership>, at: int)
    requires
        one_lease_each(leases),
        0 <= at < leases.len(),
    ensures
        one_lease_each(leases.remove(at)),
        lease_map(leases.remove(at)) == lease_map(leases).remove(leases[at].session_id),
{
    let rest = leases.remove(at);
    assert forall|i: int| 0 <= i < rest.len() implies #[trigger] rest[i] == leases[if i < at {
        i
    } else {
        i + 1
    }] by {}
    lemma_lease_map(leases);
    lemma_lease_map(rest);
    assert forall|id: u32| is_leased(rest, id) == (is_leased(leases, id) && id
        != leases[at].session_id) by {
        if is_leased(leases, id) && id != leases[at].session_id {
            let i = choose|i: int|
                0 <= i < leases.len() && (#[trigger] leases[i]).session_id == id;
            let k = if i < at {
                i
            } else {
                i - 1
            };
            assert(rest[k] == leases[i]);
        }
        if is_leased(rest, id) {
            let i = choose|i: int| 0 <= i < rest.len() && (#[trigger] rest[i]).session_id == id;
            let k = if i < at {
                i
            } else {
                i + 1
            };
            assert(leases[k].session_id == id);
        }
    }
    assert forall|id: u32| is_leased(rest, id) implies #[trigger] lease_map(rest)[id] == lease_map(
        leases,
    )[id] by {
        let i = choose|i: int| 0 <= i < rest.len() && (#[trigger] rest[i]).session_id == id;
        let k = if i < at {
            i
        } else {
            i + 1
        };
        assert(rest[i] == leases[k]);
    }
    assert(lease_map(rest) =~= lease_map(leases).remove(leases[at].session_id));
}

fn copy_of(lease: &SessionOwnership) -> (copy: SessionOwnership)
    ensures
        copy == *lease,
{
    SessionOwnership {
        session_id: lease.session_id,
        token: lease.token,
        wire_session_name: lease.wire_session_name.clone(),
        current_session_name: lease.current_session_name.clone(),
        deadline: lease.deadline,
    }
}

fn insert_by_name(sessions: &mut Vec<(String, u32)>, name: String, id: u32)
    requires
        in_name_order(old(sessions)@),
        each_id_once(old(sessions)@),
        !lists_id(old(sessions)@, id),
    ensures
        in_name_order(final(sessions)@),
        each_id_once(final(sessions)@),
        exists|at: int|
            0 <= at <= old(sessions)@.len() && #[trigger] old(sessions)@.insert(at, (name, id))
                == final(sessions)@,
{
    let mut at: usize = 0;
    let ghost all = sessions@;
    while at < sessions.len() && !text::is_before(name.as_str(), sessions[at].0.as_str())
        invariant
            at <= sessions@.len(),
            sessions@ == all,
            forall|i: int| 0 <= i < at ==> !text::text_before(name@, (#[trigger] all[i]).0@),
        decreases sessions.len() - at,
    {
        at = at + 1;
    }
    let ghost longer = all.insert(at as int, (name, id));
    proof {
        assert forall|i: int, j: int| 0 <= i < j < longer.len() implies !text::text_before(
            (#[trigger] longer[j]).0@,
            (#[trigger] longer[i]).0@,
        ) by {
            let a = if i < at {
                i
            } else {
                i - 1
            };
            let b = if j < at {
                j
            } else {
                j - 1
            };
            if i == at {
                assert(longer[j] == all[b]);
                text::lemma_text_order(all[b].0@, name@, all[at as int].0@);
                if b > at {
                    assert(!text::text_before(all[b].0@, all[at as int].0@));
                }
            } else if j == at {
                assert(longer[i] == all[i]);
            } else {
                assert(longer[i] == all[a] && longer[j] == all[b]);
            }
        }
        assert forall|i: int, j: int| 0 <= i < j < longer.len() implies (#[trigger] longer[i]).1 != (
        #[trigger] longer[j]).1 by {
            let a = if i < at {
                i
            } else {
                i - 1
            };
            let b = if j < at {
                j
            } else {
                j - 1
            };
            if i == at {
                assert(longer[j] == all[b]);
            } else if j == at {
                assert(longer[i] == all[i]);
            } else {
                assert(longer[i] == all[a] && longer[j] == all[b]);
            }
        }
    }
    sessions.insert(at, (name, id));
    assert(all.insert(at as int, (name, id)) == sessions@);
}

proof fn lemma_insert_lists(sessions: Seq<(String, u32)>, at: int, name: String, id: u32)
    requires
        0 <= at <= sessions.len(),
    ensures
        forall|other: u32| #[trigger]
            lists_id(sessions.insert(at, (name, id)), other) == (lists_id(sessions, other) || other
                == id),
{
    let longer = sessions.insert(at, (name, id));
    assert forall|other: u32| #[trigger]
        lists_id(longer, other) == (lists_id(sessions, other) || other == id) by {
        if lists_id(sessions, other) {
            let i = choose|i: int| 0 <= i < sessions.len() && (#[trigger] sessions[i]).1 == other;
            let k = if i < at {
                i
            } else {
                i + 1
            };
            assert(longer[k] == sessions[i]);
        }
        if other == id {
            assert(longer[at].1 == other);
        }
        if lists_id(longer, other) && other != id {
            let i = choose|i: int| 0 <= i < longer.len() && (#[trigger] longer[i]).1 == other;
            let k = if i < at {
                i
            } else {
                i - 1
            };
            assert(sessions[k] == longer[i]);
        }
    }
}

impl Default for SessionLeaseStore {
    fn default() -> (value: Self)
        ensures
            value.wf(),
            value.leases() == Map::<u32, LeaseModel>::empty(),
            value.next_token == 0,
    {
        SessionLeaseStore::new()
    }
}

impl SessionLeaseStore {
    /// One lease for each session, with a token of its own.
    pub open spec fn wf(&self) -> bool {
        one_lease_each(self.ownerships@) && tokens_are_fresh(
            lease_map(self.ownerships@),
            self.next_token,
        )
    }

    /// The leases by the ids of their sessions.
    pub open spec fn leases(&self) -> Map<u32, LeaseModel> {
        lease_map(self.ownerships@)
    }

    /// The leases and the token that was handed out last.
    pub open spec fn state(&self) -> LeaseState {
        (self.leases(), self.next_token)
    }

    /// No leases.
    pub fn new() -> (store: Self)
        ensures
            store.wf(),
            store.leases() == Map::<u32, LeaseModel>::empty(),
            store.next_token == 0,
    {
        let store = SessionLeaseStore { ownerships: Vec::new(), next_token: 0 };
        assert(store.leases() =~= Map::<u32, LeaseModel>::empty());
        store
    }

    fn find(&self, session_id: u32) -> (at: Option<usize>)
        requires
            one_lease_each(self.ownerships@),
        ensures
            match at {
                Some(at) => at < self.ownerships@.len() && self.ownerships@[at as int].session_id
                    == session_id && self.leases().contains_key(session_id) && self.leases()[
                    session_id
                ] == self.ownerships@[at as int]@,
                None => !is_leased(self.ownerships@, session_id) && !self.leases().contains_key(
                    session_id,
                ),
            },
    {
        proof {
            lemma_lease_map(self.ownerships@);
        }
        let mut i: usize = 0;
        while i < self.ownerships.len()
            invariant
                i <= self.ownerships@.len(),
                forall|j: int|
                    0 <= j < self.ownerships@.len() ==> self.leases().contains_key(
                        (#[trigger] self.ownerships@[j]).session_id,
                    ) && self.leases()[self.ownerships@[j].session_id] == self.ownerships@[j]@,
                forall|j: int|
                    0 <= j < i ==> (#[trigger] self.ownerships@[j]).session_id != session_id,
            decreases self.ownerships.len() - i,
        {
            if self.ownerships[i].session_id == session_id {
                return Some(i);
            }
            i = i + 1;
        }
        None
    }

    /// The lease of the session with the id `session_id`.
    pub fn ownership(&self, session_id: u32) -> (lease: Option<&SessionOwnership>)
        requires
            self.wf(),
        ensures
            match lease {
                Some(lease) => self.leases().contains_key(session_id) && self.leases()[session_id]
                    == lease@,
                None => !self.leases().contains_key(session_id),
            },
    {
        match self.find(session_id) {
            Some(at) => Some(&self.ownerships[at]),
            None => None,
        }
    }

    /// Leases a session to the owner who gets the token. An earlier lease of the
    /// session ends.
    pub fn create_lease(
        &mut self,
        wire_session_name: String,
        current_session_name: String,
        session_id: u32,
        now: u64,
        ttl: u64,
    ) -> (token: Result<u64, RmuxError>)
        requires
            old(self).wf(),
        ensures
            final(self).wf(),
            if old(self).next_token == u64::MAX {
                &&& token matches Err(error)
                &&& error@ == ErrorModel::Server("session lease token space exhausted"@)
                &&& *final(self) == *old(self)
            } else {
                &&& token == Ok::<u64, RmuxError>((old(self).next_token + 1) as u64)
                &&& leases_moved(
                    old(self).state(),
                    final(self).state(),
                    LeaseMove::Create {
                        session_id,
                        wire_session_name: wire_session_name@,
                        current_session_name: current_session_name@,
                        deadline: now + ttl,
                    },
                )
            },
    {
        if self.next_token == u64::MAX {
            return Err(error::server_error("session lease token space exhausted"));
        }
        let token: u64 = self.next_token + 1;
        self.next_token = token;
        let lease = SessionOwnership {
            session_id,
            token,
            wire_session_name,
            current_session_name,
            deadline: now as u128 + ttl as u128,
        };
        let ghost before = self.ownerships@;
        match self.find(session_id) {
            Some(at) => {
                proof {
                    lemma_map_update(before, at as int, lease);
                }
                self.ownerships.set(at, lease);
            },
            None => {
                proof {
                    lemma_map_push(before, lease);
                }
                self.ownerships.push(lease);
            },
        }
        Ok(token)
    }

    /// The session that a token holds a lease of.
    pub fn live_session_id(&self, store: &SessionStore, wire_session_name: &str, token: u64) -> (id:
        Option<u32>)
        requires
            self.wf(),
        ensures
            match id {
                Some(id) => holds(self.leases(), *store, wire_session_name@, token, id),
                None => forall|id: u32|
                    !#[trigger] holds(self.leases(), *store, wire_session_name@, token, id),
            },
    {
        proof {
            lemma_lease_map(self.ownerships@);
        }
        let mut i: usize = 0;
        while i < self.ownerships.len()
            invariant
                i <= self.ownerships@.len(),
                forall|j: int|
                    0 <= j < self.ownerships@.len() ==> self.leases().contains_key(
                        (#[trigger] self.ownerships@[j]).session_id,
                    ) && self.leases()[self.ownerships@[j].session_id] == self.ownerships@[j]@,
                self.wf(),
                forall|j: int|
                    0 <= j < i ==> (#[trigger] self.ownerships@[j]).token != token
                        || self.ownerships@[j].wire_session_name@ != wire_session_name@,
            decreases self.ownerships.len() - i,
        {
            let lease = &self.ownerships[i];
            if lease.token == token && text::same_text(
                lease.wire_session_name.as_str(),
                wire_session_name,
            ) {
                let named = match store.session_by_id(lease.session_id) {
                    Some(session) => text::same_text(
                        session.name.as_str(),
                        lease.current_session_name.as_str(),
                    ),
                    None => false,
                };
                if named {
                    return Some(lease.session_id);
                }
                assert forall|id: u32| !#[trigger] holds(
                    self.leases(),
                    *store,
                    wire_session_name@,
                    token,
                    id,
                ) by {
                    assert(self.leases().contains_key(lease.session_id));
                }
                return None;
            }
            i = i + 1;
        }
        assert forall|id: u32| !#[trigger] holds(
            self.leases(),
            *store,
            wire_session_name@,
            token,
            id,
        ) by {
            if self.leases().contains_key(id) {
                assert(is_leased(self.ownerships@, id));
                let k = choose|k: int|
                    0 <= k < self.ownerships@.len() && (
                    #[trigger] self.ownerships@[k]).session_id == id;
                assert(self.leases()[id] == self.ownerships@[k]@);
            }
        }
        None
    }

    /// Puts the end of a lease off.
    pub fn renew(
        &mut self,
        store: &SessionStore,
        wire_session_name: &str,
        token: u64,
        now: u64,
        ttl: u64,
    ) -> (renewed: bool)
        requires
            old(self).wf(),
        ensures
            final(self).wf(),
            renewed == exists|id: u32|
                #[trigger] holds(old(self).leases(), *store, wire_session_name@, token, id),
            renewed ==> forall|id: u32| #[trigger]
                holds(old(self).leases(), *store, wire_session_name@, token, id) ==> leases_moved(
                    old(self).state(),
                    final(self).state(),
                    LeaseMove::Renew { session_id: id, deadline: now + ttl },
                ),
            !renewed ==> *final(self) == *old(self),
    {
        let session_id: u32 = match self.live_session_id(store, wire_session_name, token) {
            Some(id) => id,
            None => {
                return false;
            },
        };
        if let Some(at) = self.find(session_id) {
            let mut lease = copy_of(&self.ownerships[at]);
            lease.deadline = now as u128 + ttl as u128;
            proof {
                lemma_map_update(self.ownerships@, at as int, lease);
            }
            self.ownerships.set(at, lease);
            proof {
                assert(holds(old(self).leases(), *store, wire_session_name@, token, session_id));
            }
        }
        true
    }

    /// Ends a lease; the session stays.
    pub fn release(&mut self, store: &SessionStore, wire_session_name: &str, token: u64) -> (
    released: bool)
        requires
            old(self).wf(),
        ensures
            final(self).wf(),
            released == exists|id: u32|
                #[trigger] holds(old(self).leases(), *store, wire_session_name@, token, id),
            released ==> forall|id: u32| #[trigger]
                holds(old(self).leases(), *store, wire_session_name@, token, id) ==> leases_moved(
                    old(self).state(),
                    final(self).state(),
                    LeaseMove::Release { session_id: id },
                ),
            !released ==> *final(self) == *old(self),
    {
        let session_id: u32 = match self.live_session_id(store, wire_session_name, token) {
            Some(id) => id,
            None => {
                return false;
            },
        };
        if let Some(at) = self.find(session_id) {
            proof {
                lemma_map_remove(self.ownerships@, at as int);
                assert(holds(self.leases(), *store, wire_session_name@, token, session_id));
            }
            let _ = self.ownerships.remove(at);
        }
        true
    }

    /// Ends the leases of sessions that are gone.
    pub fn remove_sessions(&mut self, sessions: &Vec<(String, u32)>)
        requires
            old(self).wf(),
        ensures
            final(self).wf(),
            leases_moved(
                old(self).state(),
                final(self).state(),
                LeaseMove::Remove(session_keys(sessions@)),
            ),
    {
        let ghost keys = session_keys(sessions@);
        let mut i: usize = 0;
        assert(without_sessions(self.leases(), keys.take(0)) =~= self.leases());
        while i < sessions.len()
            invariant
                i <= sessions@.len(),
                keys == session_keys(sessions@),
                self.wf(),
                self.next_token == old(self).next_token,
                self.leases() == without_sessions(old(self).leases(), keys.take(i as int)),
            decreases sessions.len() - i,
        {
            let ghost before = self.leases();
            if let Some(at) = self.find(sessions[i].1) {
                if text::same_text(
                    self.ownerships[at].current_session_name.as_str(),
                    sessions[i].0.as_str(),
                ) {
                    proof {
                        lemma_map_remove(self.ownerships@, at as int);
                    }
                    let _ = self.ownerships.remove(at);
                }
            }
            proof {
                let (name, id) = keys[i as int];
                assert(id == sessions@[i as int].1 && name == sessions@[i as int].0@);
                let done = keys.take(i as int);
                assert(keys.take(i + 1) =~= done.push((name, id)));
                assert forall|key: (Seq<char>, u32)| #[trigger]
                    done.push((name, id)).contains(key) == (done.contains(key) || key == (
                        name,
                        id,
                    )) by {
                    if done.contains(key) {
                        let k = choose|k: int| 0 <= k < done.len() && done[k] == key;
                        assert(done.push((name, id))[k] == key);
                    }
                    assert(done.push((name, id))[done.len() as int] == (name, id));
                    if done.push((name, id)).contains(key) && key != (name, id) {
                        let k = choose|k: int|
                            0 <= k < done.len() + 1 && done.push((name, id))[k] == key;
                        assert(done[k] == key);
                    }
                }
                assert(self.leases() =~= without_sessions(
                    old(self).leases(),
                    done.push((name, id)),
                ));
            }
            i = i + 1;
        }
        assert(keys.take(i as int) =~= keys);
    }

    /// Tells the lease of a session that the session is called otherwise now.
    pub fn rename_session(&mut self, old_name: &str, new_name: String, session_id: u32) -> (renamed:
        bool)
        requires
            old(self).wf(),
        ensures
            final(self).wf(),
            renamed == (old(self).leases().contains_key(session_id) && old(self).leases()[
                session_id
            ].current_session_name == old_name@),
            renamed ==> leases_moved(
                old(self).state(),
                final(self).state(),
                LeaseMove::Rename { session_id, new_name: new_name@ },
            ),
            !renamed ==> *final(self) == *old(self),
    {
        match self.find(session_id) {
            None => false,
            Some(at) => {
                if !text::same_text(
                    self.ownerships[at].current_session_name.as_str(),
                    old_name,
                ) {
                    return false;
                }
                let mut lease = copy_of(&self.ownerships[at]);
                lease.current_session_name = new_name;
                proof {
                    lemma_map_update(self.ownerships@, at as int, lease);
                }
                self.ownerships.set(at, lease);
                true
            },
        }
    }

    /// Takes out the leases that have run out, and lists their sessions by name.
    pub fn expired(&mut self, now: u64) -> (expired: Vec<(String, u32)>)
        requires
            old(self).wf(),
        ensures
            final(self).wf(),
            lists_expired(expired@, old(self).leases(), now),
            leases_moved(old(self).state(), final(self).state(), LeaseMove::Expire { now }),
    {
        let mut expired: Vec<(String, u32)> = Vec::new();
        let mut i: usize = 0;
        let ghost before = self.leases();
        while i < self.ownerships.len()
            invariant
                i <= self.ownerships@.len(),
                one_lease_each(self.ownerships@),
                self.next_token == old(self).next_token,
                before == old(self).leases(),
                in_name_order(expired@),
                each_id_once(expired@),
                forall|j: int|
                    0 <= j < i ==> (#[trigger] self.ownerships@[j]).deadline > now,
                forall|j: int|
                    0 <= j < expired@.len() ==> {
                        let (name, id) = #[trigger] expired@[j];
                        before.contains_key(id) && before[id].deadline <= now
                            && before[id].current_session_name == name@
                            && !self.leases().contains_key(id)
                    },
                forall|id: u32| #[trigger]
                    self.leases().contains_key(id) ==> before.contains_key(id) && before[id]
                        == self.leases()[id],
                forall|id: u32|
                    #![trigger before.contains_key(id)]
                    before.contains_key(id) ==> self.leases().contains_key(id) || (lists_id(
                        expired@,
                        id,
                    ) && before[id].deadline <= now),
            decreases self.ownerships.len() - i,
        {
            if self.ownerships[i].deadline <= now as u128 {
                let ghost all = self.ownerships@;
                let ghost listed = expired@;
                let id: u32 = self.ownerships[i].session_id;
                let name = self.ownerships[i].current_session_name.clone();
                proof {
                    lemma_lease_map(all);
                    lemma_map_remove(all, i as int);
                    assert(self.leases().contains_key(all[i as int].session_id));
                }
                insert_by_name(&mut expired, name, id);
                proof {
                    let at = choose|at: int|
                        0 <= at <= listed.len() && #[trigger] listed.insert(at, (name, id))
                            == expired@;
                    lemma_insert_lists(listed, at, name, id);
                    assert forall|j: int| 0 <= j < expired@.len() implies {
                        let (name, other) = #[trigger] expired@[j];
                        before.contains_key(other) && before[other].deadline <= now
                            && before[other].current_session_name == name@ && !lease_map(
                            all.remove(i as int),
                        ).contains_key(other)
                    } by {
                        let k = if j < at {
                            j
                        } else {
                            j - 1
                        };
                        if j != at {
                            assert(expired@[j] == listed[k]);
                        }
                    }
                }
                let _ = self.ownerships.remove(i);
            } else {
                i = i + 1;
            }
        }
        proof {
            lemma_lease_map(self.ownerships@);
            assert forall|id: u32| #[trigger] self.leases().contains_key(id) implies before[id].deadline
                > now by {
                assert(is_leased(self.ownerships@, id));
                let k = choose|k: int|
                    0 <= k < self.ownerships@.len() && (
                    #[trigger] self.ownerships@[k]).session_id == id;
                assert(self.ownerships@[k].deadline > now);
            }
            assert forall|id: u32|
                #[trigger] before.contains_key(id) && before[id].deadline <= now implies lists_id(
                expired@,
                id,
            ) by {
                assert(!self.leases().contains_key(id));
            }
            assert(tokens_are_fresh(before, self.next_token));
            assert forall|a: u32, b: u32| #[trigger]
                self.leases().contains_key(a) && #[trigger] self.leases().contains_key(b) && a
                    != b implies self.leases()[a].token != self.leases()[b].token by {
                assert(before.contains_key(a) && before.contains_key(b));
            }
            assert forall|id: u32| #[trigger] self.leases().contains_key(
                id,
            ) implies self.leases()[id].token <= self.next_token by {
                assert(before.contains_key(id));
            }
            assert(tokens_are_fresh(self.leases(), self.next_token));
            assert(self.leases() =~= still_leased(before, now));
        }
        expired
    }
}

/// Whole milliseconds for a lease, or why there can be none for so short a time.
/// `min` is the shortest time that is granted.
pub fn duration_from_millis(ttl_millis: u64, min: u64) -> (ttl: Result<u64, RmuxError>)
    ensures
        match ttl_refusal(ttl_millis, min) {
            Some(refusal) => ttl matches Err(error) && error@ == refusal,
            None => ttl == Ok::<u64, RmuxError>(ttl_millis),
        },
{
    if ttl_millis == 0 {
        return Err(error::server_error("session lease ttl must be greater than zero"));
    }
    if ttl_millis < min {
        let mut text = "session lease ttl must be at least ".to_owned();
        text::push_decimal(&mut text, min);
        text.append("ms");
        return Err(RmuxError::Server(text));
    }
    Ok(ttl_millis)
}

/// Why there is no lease for so short a time.
pub open spec fn ttl_refusal(ttl_millis: u64, min: u64) -> Option<ErrorModel> {
    if ttl_millis == 0 {
        Some(ErrorModel::Server("session lease ttl must be greater than zero"@))
    } else if ttl_millis < min {
        Some(
            ErrorModel::Server(
                "session lease ttl must be at least "@ + text::decimal(min as nat) + "ms"@,
            ),
        )
    } else {
        None
    }
}

/// The session that a request for a lease names: by its name, or by `$` and its
/// id.
pub open spec fn create_target(
    store: SessionStore,
    target: Seq<char>,
    addressing: SessionLeaseCreateAddressing,
) -> Option<(Seq<char>, u32)> {
    match addressing {
        SessionLeaseCreateAddressing::Nominal => match store.session_spec(target) {
            Some(session) => Some((session.name@, session.id)),
            None => None,
        },
        SessionLeaseCreateAddressing::StableId => if target.len() > 0 && target[0] == '$' {
            match text::number(target.subrange(1, target.len() as int), u32::MAX as nat) {
                Some(id) => match store.session_by_id_spec(id as u32) {
                    Some(session) => Some((session.name@, id as u32)),
                    None => None,
                },
                None => None,
            }
        } else {
            None
        },
    }
}

/// A name and an id as a value.
pub open spec fn named_session(session: Option<(String, u32)>) -> Option<(Seq<char>, u32)> {
    match session {
        Some((name, id)) => Some((name@, id)),
        None => None,
    }
}

/// The session that a request for a lease names.
pub fn resolve_session_lease_create_target(
    store: &SessionStore,
    target: &str,
    addressing: SessionLeaseCreateAddressing,
) -> (session: Option<(String, u32)>)
    ensures
        named_session(session) == create_target(*store, target@, addressing),
{
    match addressing {
        SessionLeaseCreateAddressing::Nominal => match store.session(target) {
            Some(session) => Some((session.name.clone(), session.id)),
            None => None,
        },
        SessionLeaseCreateAddressing::StableId => {
            let len: usize = target.unicode_len();
            if len == 0 || target.get_char(0) != '$' {
                return None;
            }
            match text::parse_number(target.substring_char(1, len), u32::MAX as u64) {
                Some(id) => match store.session_by_id(id as u32) {
                    Some(session) => Some((session.name.clone(), id as u32)),
                    None => None,
                },
                None => None,
            }
        },
    }
}

/// The answer to a request for a lease.
#[derive(Debug, Clone, Copy, PartialEq, Eq, Structural)]
pub struct CreateSessionLeaseResponse {
    pub token: u64,
    pub ttl_millis: u64,
}

/// Leases a session as a request asks; the answer is the token and how long the
/// lease lasts.
pub fn handle_create_session_lease(
    leases: &mut SessionLeaseStore,
    store: &SessionStore,
    session_name: String,
    addressing: SessionLeaseCreateAddressing,
    now: u64,
    ttl_millis: u64,
    min_ttl_millis: u64,
) -> (response: Result<CreateSessionLeaseResponse, RmuxError>)
    requires
        old(leases).wf(),
    ensures
        final(leases).wf(),
        match ttl_refusal(ttl_millis, min_ttl_millis) {
            Some(refusal) => response matches Err(error) && error@ == refusal && *final(leases)
                == *old(leases),
            None => match create_target(*store, session_name@, addressing) {
                None => response matches Err(error) && error@ == ErrorModel::SessionNotFound(
                    session_name@,
                ) && *final(leases) == *old(leases),
                Some((current, id)) => if old(leases).next_token == u64::MAX {
                    response matches Err(error) && error@ == ErrorModel::Server(
                        "session lease token space exhausted"@,
                    ) && *final(leases) == *old(leases)
                } else {
                    &&& response == Ok::<CreateSessionLeaseResponse, RmuxError>(
                        CreateSessionLeaseResponse {
                            token: (old(leases).next_token + 1) as u64,
                            ttl_millis,
                        },
                    )
                    &&& leases_moved(
                        old(leases).state(),
                        final(leases).state(),
                        LeaseMove::Create {
                            session_id: id,
                            wire_session_name: session_name@,
                            current_session_name: current,
                            deadline: now + ttl_millis,
                        },
                    )
                },
            },
        },
{
    let ttl: u64 = match duration_from_millis(ttl_millis, min_ttl_millis) {
        Ok(ttl) => ttl,
        Err(error) => {
            return Err(error);
        },
    };
    match resolve_session_lease_create_target(store, session_name.as_str(), addressing) {
        None => Err(RmuxError::SessionNotFound(session_name)),
        Some((current, id)) => match leases.create_lease(session_name, current, id, now, ttl) {
            Ok(token) => Ok(CreateSessionLeaseResponse { token, ttl_millis }),
            Err(error) => Err(error),
        },
    }
}

/// Puts the end of a lease off as a request asks. A token that holds no lease any
/// more is told that the lease is lost.
pub fn handle_renew_session_lease(
    leases: &mut SessionLeaseStore,
    store: &SessionStore,
    session_name: &str,
    token: u64,
    now: u64,
    ttl_millis: u64,
    min_ttl_millis: u64,
) -> (result: Result<(), RmuxError>)
    requires
        old(leases).wf(),
    ensures
        final(leases).wf(),
        match ttl_refusal(ttl_millis, min_ttl_millis) {
            Some(refusal) => result matches Err(error) && error@ == refusal && *final(leases)
                == *old(leases),
            None => if exists|id: u32|
                #[trigger] holds(old(leases).leases(), *store, session_name@, token, id) {
                &&& result is Ok
                &&& forall|id: u32| #[trigger]
                    holds(old(leases).leases(), *store, session_name@, token, id) ==> leases_moved(
                        old(leases).state(),
                        final(leases).state(),
                        LeaseMove::Renew { session_id: id, deadline: now + ttl_millis },
                    )
            } else {
                &&& result matches Err(error)
                &&& error@ == (ErrorModel::OwnedSessionLeaseLost { session_name: session_name@ })
                &&& *final(leases) == *old(leases)
            },
        },
{
    let ttl: u64 = match duration_from_millis(ttl_millis, min_ttl_millis) {
        Ok(ttl) => ttl,
        Err(error) => {
            return Err(error);
        },
    };
    if leases.renew(store, session_name, token, now, ttl) {
        Ok(())
    } else {
        Err(lease_lost_error(session_name))
    }
}

/// Ends a lease as a request asks; the answer is whether the token held one.
pub fn handle_release_session_lease(
    leases: &mut SessionLeaseStore,
    store: &SessionStore,
    session_name: &str,
    token: u64,
) -> (released: bool)
    requires
        old(leases).wf(),
    ensures
        final(leases).wf(),
        released == exists|id: u32|
            #[trigger] holds(old(leases).leases(), *store, session_name@, token, id),
        released ==> forall|id: u32| #[trigger]
            holds(old(leases).leases(), *store, session_name@, token, id) ==> leases_moved(
                old(leases).state(),
                final(leases).state(),
                LeaseMove::Release { session_id: id },
            ),
        !released ==> *final(leases) == *old(leases),
{
    leases.release(store, session_name, token)
}

/// A request to end a session.
#[derive(Debug, PartialEq, Eq)]
pub struct KillSessionRequest {
    pub target: String,
    pub kill_all_except_target: bool,
    pub clear_alerts: bool,
    pub kill_group: bool,
}

/// The request that ends one session, and no other with it.
pub open spec fn ends_one(request: KillSessionRequest, name: Seq<char>) -> bool {
    request.target@ == name && !request.kill_all_except_target && !request.clear_alerts
        && !request.kill_group
}

/// Takes out the leases that have run out. Their sessions are to be ended in this
/// order, each only where it still is the session with the id.
pub fn reap_expired_session_leases(leases: &mut SessionLeaseStore, now: u64) -> (kills: Vec<
    (KillSessionRequest, u32),
>)
    requires
        old(leases).wf(),
    ensures
        final(leases).wf(),
        leases_moved(old(leases).state(), final(leases).state(), LeaseMove::Expire { now }),
        exists|expired: Seq<(String, u32)>| #[trigger]
            lists_expired(expired, old(leases).leases(), now) && expired.len() == kills@.len()
                && forall|i: int|
                0 <= i < kills@.len() ==> ends_one((#[trigger] kills@[i]).0, expired[i].0@)
                    && kills@[i].1 == expired[i].1,
{
    let expired = leases.expired(now);
    let mut kills: Vec<(KillSessionRequest, u32)> = Vec::new();
    let mut i: usize = 0;
    while i < expired.len()
        invariant
            i <= expired@.len(),
            kills@.len() == i,
            forall|j: int|
                0 <= j < i ==> ends_one((#[trigger] kills@[j]).0, expired@[j].0@) && kills@[j].1
                    == expired@[j].1,
        decreases expired.len() - i,
    {
        let request = KillSessionRequest {
            target: expired[i].0.clone(),
            kill_all_except_target: false,
            clear_alerts: false,
            kill_group: false,
        };
        kills.push((request, expired[i].1));
        i = i + 1;
    }
    kills
}

/// The refusal of a token that holds no lease any more.
pub fn lease_lost_error(session_name: &str) -> (error: RmuxError)
    ensures
        error@ == (ErrorModel::OwnedSessionLeaseLost { session_name: session_name@ }),
{
    RmuxError::OwnedSessionLeaseLost { session_name: session_name.to_owned() }
}

/// Whether the task that ends expired leases is to be started: once, with the
/// first lease.
pub fn ensure_session_lease_janitor_started(started: &mut bool) -> (starts: bool)
    ensures
        starts == !*old(started),
        *final(started),
{
    let starts = !*started;
    *started = true;
    starts
}

/// A token holds a lease of one session at most, so that no session of the same
/// name can be renewed or released in its place.
pub proof fn a_token_holds_one_session(
    leases: Map<u32, LeaseModel>,
    last: u64,
    store: SessionStore,
    a_name: Seq<char>,
    b_name: Seq<char>,
    token: u64,
    a: u32,
    b: u32,
)
    requires
        tokens_are_fresh(leases, last),
        holds(leases, store, a_name, token, a),
        holds(leases, store, b_name, token, b),
    ensures
        a == b,
        a_name == b_name,
{
}

/// The token was handed out, and no lease has it.
pub open spec fn is_spent(state: LeaseState, token: u64) -> bool {
    token <= state.1 && forall|id: u32| #[trigger]
        state.0.contains_key(id) ==> state.0[id].token != token
}

/// `states` are those of leases that `moves` were done to, one after another.
pub open spec fn is_lease_run(states: Seq<LeaseState>, moves: Seq<LeaseMove>) -> bool {
    &&& states.len() == moves.len() + 1
    &&& forall|i: int|
        0 <= i < moves.len() ==> leases_moved(states[i], states[i + 1], #[trigger] moves[i])
}

/// A lease that has ended, in whatever way, stays ended: whatever is done to the
/// leases from then on, its token holds nothing, in whatever state the sessions are.
pub proof fn an_ended_lease_stays_ended(
    states: Seq<LeaseState>,
    moves: Seq<LeaseMove>,
    token: u64,
    store: SessionStore,
    name: Seq<char>,
    id: u32,
)
    requires
        is_lease_run(states, moves),
        is_spent(states[0], token),
    ensures
        is_spent(states.last(), token),
        !holds(states.last().0, store, name, token, id),
    decreases moves.len(),
{
    if moves.len() > 0 {
        let n = moves.len() - 1;
        let earlier = states.drop_last();
        let made = moves.drop_last();
        assert forall|i: int| 0 <= i < made.len() implies leases_moved(
            earlier[i],
            earlier[i + 1],
            #[trigger] made[i],
        ) by {
            assert(made[i] == moves[i]);
        }
        an_ended_lease_stays_ended(earlier, made, token, store, name, id);
        assert(earlier.last() == states[n]);
        assert(states.last() == states[n + 1]);
        assert(leases_moved(states[n], states[n + 1], moves[n]));
        let before = states[n].0;
        assert forall|other: u32| #[trigger] states[n + 1].0.contains_key(other) implies states[n
            + 1].0[other].token != token by {
            if before.contains_key(other) {
                assert(before[other].token != token);
            }
        }
    }
}

/// Releasing a lease, making another for the session, the end of the session and
/// running out all end a lease: its token is spent.
pub proof fn leases_end(before: LeaseState, after: LeaseState, step: LeaseMove, id: u32)
    requires
        tokens_are_fresh(before.0, before.1),
        before.0.contains_key(id),
        leases_moved(before, after, step),
        match step {
            LeaseMove::Create { session_id, .. } => session_id == id,
            LeaseMove::Release { session_id } => session_id == id,
            LeaseMove::Remove(sessions) => sessions.contains(
                (before.0[id].current_session_name, id),
            ),
            LeaseMove::Expire { now } => before.0[id].deadline <= now,
            _ => false,
        },
    ensures
        is_spent(after, before.0[id].token),
{
    let token = before.0[id].token;
    assert forall|other: u32| #[trigger] after.0.contains_key(other) implies after.0[other].token
        != token by {
        if other != id {
            assert(before.0.contains_key(other) && before.0.contains_key(id));
        }
    }
}

/// A token is new: no lease had it, and none that was handed out is handed out
/// again.
pub proof fn tokens_are_never_reused(before: LeaseState, after: LeaseState, step: LeaseMove)
    requires
        tokens_are_fresh(before.0, before.1),
        leases_moved(before, after, step),
        step is Create,
    ensures
        after.1 > before.1,
        forall|id: u32| #[trigger] before.0.contains_key(id) ==> before.0[id].token != after.1,
{
}

/// When sessions are gone, the lease of every other session stays as it was, also
/// of one that has taken the name of a session that is gone.
pub proof fn a_namesake_keeps_its_lease(
    leases: Map<u32, LeaseModel>,
    gone: Seq<(Seq<char>, u32)>,
    store: SessionStore,
    name: Seq<char>,
    token: u64,
    id: u32,
)
    requires
        forall|i: int| 0 <= i < gone.len() ==> (#[trigger] gone[i]).1 != id,
    ensures
        holds(without_sessions(leases, gone), store, name, token, id) == holds(
            leases,
            store,
            name,
            token,
            id,
        ),
{
}

/// A renamed session keeps its lease under the name that the owner knows it by.
pub proof fn a_renamed_session_keeps_its_lease(
    leases: Map<u32, LeaseModel>,
    before: SessionStore,
    after: SessionStore,
    wire_name: Seq<char>,
    token: u64,
    id: u32,
    new_name: Seq<char>,
)
    requires
        holds(leases, before, wire_name, token, id),
        after.session_by_id_spec(id) matches Some(session) && session.name@ == new_name,
    ensures
        holds(
            leases.insert(id, LeaseModel { current_session_name: new_name, ..leases[id] }),
            after,
            wire_name,
            token,
            id,
        ),
{
}

/// A lease is for some time: none at all, and less than the least that is granted, is
/// refused; from there on it is granted as it is asked for.
pub proof fn a_lease_lasts_at_least_its_minimum(
    ttl_millis: u64,
    min: u64,
    ttl: Result<u64, RmuxError>,
)
    requires
        call_ensures(duration_from_millis, (ttl_millis, min), ttl),
    ensures
        ttl_millis == 0 ==> (ttl matches Err(error) && error@ == ErrorModel::Server(
            "session lease ttl must be greater than zero"@,
        )),
        0 < ttl_millis < min ==> (ttl matches Err(error) && error@ == ErrorModel::Server(
            "session lease ttl must be at least "@ + text::decimal(min as nat) + "ms"@,
        )),
        ttl_millis >= min && ttl_millis > 0 ==> ttl == Ok::<u64, RmuxError>(ttl_millis),
{
}

/// A session is leased by its name or, where that is how it is addressed, by a dollar
/// sign and its id; the two do not stand for each other.
pub proof fn a_lease_finds_its_session_by_name_or_id(
    store: SessionStore,
    name: Seq<char>,
    id: u32,
)
    ensures
        create_target(store, name, SessionLeaseCreateAddressing::Nominal)
            == match store.session_spec(name) {
            Some(session) => Some((session.name@, session.id)),
            None => None,
        },
        create_target(
            store,
            seq!['$'] + text::decimal(id as nat),
            SessionLeaseCreateAddressing::StableId,
        ) == match store.session_by_id_spec(id) {
            Some(session) => Some((session.name@, id)),
            None => None,
        },
        name.len() == 0 || name[0] != '$' ==> create_target(
            store,
            name,
            SessionLeaseCreateAddressing::StableId,
        ) is None,
{
    text::a_decimal_number_reads_back(id as nat, u32::MAX as nat);
    let target = seq!['$'] + text::decimal(id as nat);
    assert(target[0] == '$');
    assert(target.subrange(1, target.len() as int) =~= text::decimal(id as nat));
}

/// A new lease ends when its time from now is up, under a token one above the last, for
/// the session it names and no other.
pub proof fn a_lease_ends_when_its_time_is_up(
    before: LeaseState,
    after: LeaseState,
    session_id: u32,
    wire_session_name: Seq<char>,
    current_session_name: Seq<char>,
    deadline: int,
    other: u32,
    now: u64,
)
    requires
        leases_moved(
            before,
            after,
            LeaseMove::Create { session_id, wire_session_name, current_session_name, deadline },
        ),
    ensures
        after.1 == before.1 + 1,
        after.0.contains_key(session_id),
        after.0[session_id].token == before.1 + 1,
        after.0[session_id].deadline == deadline,
        after.0[session_id].wire_session_name == wire_session_name,
        after.0[session_id].current_session_name == current_session_name,
        other != session_id ==> after.0.contains_key(other) == before.0.contains_key(other)
            && after.0[other] == before.0[other],
        still_leased(after.0, now).contains_key(session_id) == (deadline > now),
{
}

/// Renewing puts the end of the lease off and changes nothing else; renaming changes the
/// name that the session has now, and not the one that its owner knows.
pub proof fn renewing_and_renaming_change_one_thing(
    before: LeaseState,
    renewed: LeaseState,
    renamed: LeaseState,
    released: LeaseState,
    id: u32,
    deadline: int,
    new_name: Seq<char>,
)
    requires
        leases_moved(before, renewed, LeaseMove::Renew { session_id: id, deadline }),
        leases_moved(before, renamed, LeaseMove::Rename { session_id: id, new_name }),
        leases_moved(before, released, LeaseMove::Release { session_id: id }),
    ensures
        renewed.0[id].deadline == deadline,
        renewed.0[id].token == before.0[id].token && renewed.0[id].wire_session_name
            == before.0[id].wire_session_name && renewed.0[id].current_session_name
            == before.0[id].current_session_name,
        renamed.0[id].current_session_name == new_name,
        renamed.0[id].token == before.0[id].token && renamed.0[id].wire_session_name
            == before.0[id].wire_session_name && renamed.0[id].deadline == before.0[id].deadline,
        !released.0.contains_key(id),
        renewed.1 == before.1 && renamed.1 == before.1 && released.1 == before.1,
{
}

/// A lease runs out at its deadline and not before; leases that have not run out stay as
/// they are.
pub proof fn a_lease_runs_out_at_its_deadline(leases: Map<u32, LeaseModel>, now: u64, id: u32)
    requires
        leases.contains_key(id),
    ensures
        still_leased(leases, now).contains_key(id) == (now < leases[id].deadline),
        now < leases[id].deadline ==> still_leased(leases, now)[id] == leases[id],
{
}

/// A token holds the lease of a session under the name that its owner knows, as long as
/// the session has the name that the lease knows.
pub proof fn a_token_holds_the_lease_it_was_given(
    leases: Map<u32, LeaseModel>,
    store: SessionStore,
    id: u32,
    session: crate::sessions::Session,
    other_token: u64,
    other_name: Seq<char>,
)
    requires
        leases.contains_key(id),
        store.session_by_id_spec(id) == Some(session),
    ensures
        holds(leases, store, leases[id].wire_session_name, leases[id].token, id) == (session.name@
            == leases[id].current_session_name),
        other_token != leases[id].token ==> !holds(
            leases,
            store,
            leases[id].wire_session_name,
            other_token,
            id,
        ),
        other_name != leases[id].wire_session_name ==> !holds(
            leases,
            store,
            other_name,
            leases[id].token,
            id,
        ),
{
}

/// The end of sessions ends the leases of exactly those, by the name that they have now
/// and their id.
pub proof fn leases_end_with_their_sessions(
    leases: Map<u32, LeaseModel>,
    gone: Seq<(Seq<char>, u32)>,
    id: u32,
    i: int,
)
    requires
        leases.contains_key(id),
        0 <= i < gone.len(),
    ensures
        gone[i] == (leases[id].current_session_name, id) ==> !without_sessions(
            leases,
            gone,
        ).contains_key(id),
        (forall|k: int|
            0 <= k < gone.len() ==> (#[trigger] gone[k]) != (leases[id].current_session_name, id))
            ==> without_sessions(leases, gone).contains_key(id) && without_sessions(leases, gone)[id]
            == leases[id],
{
}

/// A lease that ran out ends its own session and no other with it.
pub proof fn an_expired_lease_ends_one_session(request: KillSessionRequest, name: Seq<char>)
    requires
        ends_one(request, name),
    ensures
        request.target@ == name,
        !request.kill_all_except_target && !request.kill_group && !request.clear_alerts,
{
}

/// Leases that ran out are listed all, by the names of their sessions, each session once
/// and with the name that it has now.
pub proof fn expired_leases_are_listed_by_name(
    expired: Seq<(String, u32)>,
    leases: Map<u32, LeaseModel>,
    now: u64,
    i: int,
    j: int,
    id: u32,
)
    requires
        lists_expired(expired, leases, now),
        0 <= i < j < expired.len(),
    ensures
        leases.contains_key(expired[i].1),
        leases[expired[i].1].deadline <= now,
        leases[expired[i].1].current_session_name == expired[i].0@,
        expired[i].1 != expired[j].1,
        !text::text_before(expired[j].0@, expired[i].0@),
        leases.contains_key(id) && leases[id].deadline <= now ==> exists|k: int|
            0 <= k < expired.len() && (#[trigger] expired[k]).1 == id,
{
}

/// A lease is seen by its parts, each in its place.
pub proof fn a_lease_is_seen_by_its_parts(lease: SessionOwnership)
    ensures
        lease@.token == lease.token && lease@.wire_session_name == lease.wire_session_name@
            && lease@.current_session_name == lease.current_session_name@ && lease@.deadline
            == lease.deadline,
{
}

/// A lease that stands alone in the list is the lease of its session.
pub proof fn a_listed_lease_is_that_of_its_session(leases: Seq<SessionOwnership>, i: int)
    requires
        one_lease_each(leases),
        0 <= i < leases.len(),
    ensures
        lease_map(leases).contains_key(leases[i].session_id),
        lease_map(leases)[leases[i].session_id] == leases[i]@,
{
    let id = leases[i].session_id;
    let j = choose|j: int| 0 <= j < leases.len() && (#[trigger] leases[j]).session_id == id;
    assert(leases[i].session_id == id);
    assert(j == i);
}

} // verus!
