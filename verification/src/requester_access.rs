//! Whether a requester may write.
//!
//! A requester is known by its pid. A request that came in detached has an
//! admission of its own; that one counts, and not what an attached or a
//! control-mode client of the same pid may do.
use vstd::prelude::*;

verus! {

/// What a requester may do.
#[derive(Debug, Clone, Copy, PartialEq, Eq, Structural)]
pub enum AccessMode {
    ReadOnly,
    ReadWrite,
}

impl AccessMode {
    /// Whether the mode lets write.
    pub fn can_write(self) -> (can: bool)
        ensures
            can == (self == AccessMode::ReadWrite),
    {
        match self {
            AccessMode::ReadOnly => false,
            AccessMode::ReadWrite => true,
        }
    }
}

/// The admission of a detached request.
#[derive(Debug, PartialEq, Eq)]
pub enum DetachedAdmissionLookup<A> {
    /// The request did not come in detached.
    Absent,
    Unambiguous(A),
    /// Requests of one pid came in with different admissions, or with none.
    DeniedOrAmbiguous,
}

/// What a requester may act by.
#[derive(Debug, PartialEq, Eq)]
pub enum DetachedRequesterAuthority<A> {
    Denied,
    Admission(A),
}

/// The admission of a detached request. `active` is there for a pid with such
/// requests, and holds their admission where they have one and the same.
pub fn detached_admission_lookup<A>(active: Option<Option<A>>) -> (lookup: DetachedAdmissionLookup<
    A,
>)
    ensures
        lookup == match active {
            None => DetachedAdmissionLookup::Absent,
            Some(None) => DetachedAdmissionLookup::DeniedOrAmbiguous,
            Some(Some(admission)) => DetachedAdmissionLookup::Unambiguous(admission),
        },
{
    match active {
        None => DetachedAdmissionLookup::Absent,
        Some(None) => DetachedAdmissionLookup::DeniedOrAmbiguous,
        Some(Some(admission)) => DetachedAdmissionLookup::Unambiguous(admission),
    }
}

/// What is known of a requester's right to write.
#[derive(Debug, PartialEq, Eq)]
pub struct WriteAccess {
    /// The command runs for a control-mode client: whether that one may write.
    pub control_queue: Option<bool>,
    /// What the admission of a detached request lets do now; nothing, where it was
    /// taken back.
    pub detached: DetachedAdmissionLookup<Option<AccessMode>>,
    /// The attached client of the pid: whether it may write, and whether it asked
    /// to be read-only.
    pub attached: Option<(bool, bool)>,
    /// The control-mode client of the pid: whether it may write.
    pub control: Option<bool>,
    /// The requester is the server itself.
    pub is_server: bool,
}

/// A requester may write.
pub open spec fn may_write(access: WriteAccess) -> bool {
    match access.control_queue {
        Some(can_write) => can_write,
        None => match access.detached {
            DetachedAdmissionLookup::Unambiguous(mode) => mode == Some(AccessMode::ReadWrite),
            DetachedAdmissionLookup::DeniedOrAmbiguous => false,
            DetachedAdmissionLookup::Absent => match (access.attached, access.control) {
                (Some((can_write, read_only)), _) => can_write && !read_only,
                (None, Some(can_write)) => can_write,
                (None, None) => access.is_server,
            },
        },
    }
}

/// Whether a requester may write.
pub fn requester_can_write(access: &WriteAccess) -> (can: bool)
    ensures
        can == may_write(*access),
{
    if let Some(can_write) = access.control_queue {
        return can_write;
    }
    match &access.detached {
        DetachedAdmissionLookup::Absent => {},
        DetachedAdmissionLookup::Unambiguous(mode) => {
            return match mode {
                Some(mode) => mode.can_write(),
                None => false,
            };
        },
        DetachedAdmissionLookup::DeniedOrAmbiguous => {
            return false;
        },
    }
    if let Some((can_write, read_only)) = access.attached {
        return can_write && !read_only;
    }
    if let Some(can_write) = access.control {
        return can_write;
    }
    access.is_server
}

/// What is known of what a requester may act by; each part is missing where it
/// does not apply, and holds nothing where it applies and grants nothing.
#[derive(Debug, PartialEq, Eq)]
pub struct RequesterAdmissions<A> {
    /// Of the control-mode client that the command runs for.
    pub control_queue: Option<Option<A>>,
    /// Of a detached request.
    pub detached: DetachedAdmissionLookup<A>,
    /// Of the attached client of the pid.
    pub attached: Option<Option<A>>,
    /// Of the control-mode client of the pid.
    pub control: Option<Option<A>>,
    /// Of the server itself, where it is the requester.
    pub owner: Option<A>,
}

/// An admission, or none.
pub open spec fn granted<A>(admission: Option<A>) -> DetachedRequesterAuthority<A> {
    match admission {
        Some(admission) => DetachedRequesterAuthority::Admission(admission),
        None => DetachedRequesterAuthority::Denied,
    }
}

/// What a requester may act by.
pub open spec fn authority<A>(admissions: RequesterAdmissions<A>) -> DetachedRequesterAuthority<A> {
    match admissions.control_queue {
        Some(admission) => granted(admission),
        None => match admissions.detached {
            DetachedAdmissionLookup::Unambiguous(admission) => {
                DetachedRequesterAuthority::Admission(admission)
            },
            DetachedAdmissionLookup::DeniedOrAmbiguous => DetachedRequesterAuthority::Denied,
            DetachedAdmissionLookup::Absent => match (admissions.attached, admissions.control) {
                (Some(admission), _) => granted(admission),
                (None, Some(admission)) => granted(admission),
                (None, None) => granted(admissions.owner),
            },
        },
    }
}

/// An admission, or none.
pub fn authority_for_identity<A>(admission: Option<A>) -> (authority: DetachedRequesterAuthority<A>)
    ensures
        authority == granted(admission),
{
    match admission {
        Some(admission) => DetachedRequesterAuthority::Admission(admission),
        None => DetachedRequesterAuthority::Denied,
    }
}

/// What a requester may act by.
pub fn requester_detached_authority<A>(admissions: RequesterAdmissions<A>) -> (result:
    DetachedRequesterAuthority<A>)
    ensures
        result == authority(admissions),
{
    if let Some(admission) = admissions.control_queue {
        return authority_for_identity(admission);
    }
    match admissions.detached {
        DetachedAdmissionLookup::Unambiguous(admission) => {
            return DetachedRequesterAuthority::Admission(admission);
        },
        DetachedAdmissionLookup::DeniedOrAmbiguous => {
            return DetachedRequesterAuthority::Denied;
        },
        DetachedAdmissionLookup::Absent => {},
    }
    if let Some(admission) = admissions.attached {
        return authority_for_identity(admission);
    }
    if let Some(admission) = admissions.control {
        return authority_for_identity(admission);
    }
    authority_for_identity(admissions.owner)
}

/// Whether the admission of an attached client is asked for with the right to
/// write.
pub fn attached_write_cap(can_write: bool, read_only: bool) -> (cap: bool)
    ensures
        cap == (can_write && !read_only),
{
    can_write && !read_only
}

/// A client of the same pid lends nothing to a detached request: whether the
/// request may write, and what it may act by, do not depend on such a client, nor
/// on the pid being the server's.
pub proof fn a_client_of_the_same_pid_lends_nothing<A>(
    a: WriteAccess,
    b: WriteAccess,
    c: RequesterAdmissions<A>,
    d: RequesterAdmissions<A>,
)
    requires
        a.control_queue is None && b.control_queue is None,
        a.detached == b.detached && !(a.detached is Absent),
        c.control_queue is None && d.control_queue is None,
        c.detached == d.detached && !(c.detached is Absent),
    ensures
        may_write(a) == may_write(b),
        authority(c) == authority(d),
{
}

/// Who may write is asked in this order: the control-mode client that a command runs
/// for, the admission of a detached request, the attached client of the pid, its
/// control-mode client, and last whether the requester is the server. The first that
/// applies decides, and an attached client that asked to be read-only may not write.
pub proof fn the_first_that_applies_decides_who_may_write(access: WriteAccess, can: bool)
    requires
        call_ensures(requester_can_write, (&access,), can),
    ensures
        access.control_queue matches Some(queue) ==> can == queue,
        access.control_queue is None ==> {
            &&& access.detached is DeniedOrAmbiguous ==> !can
            &&& access.detached matches DetachedAdmissionLookup::Unambiguous(mode) ==> can == (mode
                == Some(AccessMode::ReadWrite))
            &&& access.detached is Absent ==> {
                &&& access.attached matches Some((can_write, read_only)) ==> can == (can_write
                    && !read_only)
                &&& access.attached is None ==> (access.control matches Some(control) ==> can
                    == control)
                &&& access.attached is None && access.control is None ==> can == access.is_server
            }
        },
{
}

/// What a requester may act by is asked in the same order; what applies and grants
/// nothing denies, and does not leave it to the next.
pub proof fn the_first_that_applies_decides_the_authority<A>(
    admissions: RequesterAdmissions<A>,
    result: DetachedRequesterAuthority<A>,
)
    requires
        call_ensures(requester_detached_authority::<A>, (admissions,), result),
    ensures
        ({
            let first: Option<Option<A>> = if admissions.control_queue is Some {
                admissions.control_queue
            } else if admissions.detached is DeniedOrAmbiguous {
                Some(None)
            } else if admissions.detached is Unambiguous {
                Some(Some(admissions.detached->Unambiguous_0))
            } else if admissions.attached is Some {
                admissions.attached
            } else if admissions.control is Some {
                admissions.control
            } else {
                Some(admissions.owner)
            };
            result == match first {
                Some(Some(admission)) => DetachedRequesterAuthority::Admission(admission),
                _ => DetachedRequesterAuthority::Denied,
            }
        }),
{
}

} // verus!
